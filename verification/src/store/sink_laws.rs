//! What holds of sinks and their checkpoints.
use std::sync::Arc;

use vstd::prelude::*;

use crate::backend::{CacheBackend, CheckpointBackend, EventBackend};
use crate::dispatcher::{
    delivered, delivered_from, delivered_to_all, has_name, label_announced, plan_delivery,
    unlabel_announced, Delivery, Marks, SinkDispatcher,
};
use crate::event::EventView;
use crate::id::{SeqNo, StreamId};
use crate::json::patched;
use crate::log::{count_before, until};
use crate::error::{error_words, ErrorView, StoreError};
use crate::sink::{
    empty_report, CatchUpFailureView, CatchUpReport, DeliveryView, DispatchFailureView,
    ProjectionSink, ReportView, SinkFailureObserver, SinkOp,
};
use crate::state::{empty_text, replay, replay_in_two_steps, StateResult};
use crate::store::lifecycle::{others_kept, report_failure, report_taken, was_reset, Run};
use crate::store::read::{history, shown_is_gap_free};
use crate::store::write::dispatched;
use crate::store::Store;
use crate::text::decimal;

verus! {

/// Only the checkpoint of `key` may differ.
pub open spec fn one_key_moved(before: Marks, after: Marks, key: (Seq<char>, Seq<char>)) -> bool {
    &&& after.durable == before.durable
    &&& after.sure == before.sure
    &&& after.memory.remove(key) == before.memory.remove(key)
    &&& after.saved.remove(key) == before.saved.remove(key)
}

/// The checkpoint of `key` is the same in both.
pub open spec fn same_mark(before: Marks, after: Marks, key: (Seq<char>, Seq<char>)) -> bool {
    &&& after.durable == before.durable
    &&& after.sure == before.sure
    &&& after.memory.dom().contains(key) == before.memory.dom().contains(key)
    &&& after.memory[key] == before.memory[key]
    &&& after.saved.dom().contains(key) == before.saved.dom().contains(key)
    &&& after.saved[key] == before.saved[key]
}

/// Where only the checkpoint of one key moved, that of another is the same.
proof fn another_mark_stays(
    before: Marks,
    after: Marks,
    moved: (Seq<char>, Seq<char>),
    key: (Seq<char>, Seq<char>),
)
    requires
        one_key_moved(before, after, moved),
        key != moved,
    ensures
        same_mark(before, after, key),
{
    assert(before.memory.remove(moved).dom().contains(key) == before.memory.dom().contains(key));
    assert(after.memory.remove(moved).dom().contains(key) == after.memory.dom().contains(key));
    assert(before.memory.remove(moved)[key] == before.memory[key]);
    assert(after.memory.remove(moved)[key] == after.memory[key]);
    assert(before.saved.remove(moved).dom().contains(key) == before.saved.dom().contains(key));
    assert(after.saved.remove(moved).dom().contains(key) == after.saved.dom().contains(key));
    assert(before.saved.remove(moved)[key] == before.saved[key]);
    assert(after.saved.remove(moved)[key] == after.saved[key]);
}

/// Handing a committed event to a sink moves its checkpoint to that event, if it
/// stood just before it, and otherwise leaves it where it stood: it never moves
/// back and never skips an event. No other checkpoint moves.
pub proof fn a_delivery_skips_nothing(
    sinks: Seq<Arc<dyn ProjectionSink>>,
    i: int,
    observer: Option<Arc<dyn SinkFailureObserver>>,
    delivery: DeliveryView,
    before: Marks,
    after: Marks,
)
    requires
        delivered(sinks, i, observer, delivery, before, after),
    ensures
        one_key_moved(before, after, (sinks[i].name(), delivery.stream)),
        sinks[i].wants(delivery.stream) ==> ({
            let key = (sinks[i].name(), delivery.stream);
            exists|at: u64| #[trigger]
                before.may_find(key, at) && after.memory.dom().contains(key) && (after.memory[key]
                    == at || (after.memory[key] == delivery.seq && delivery.seq == at + 1))
        }),
{
    let key = (sinks[i].name(), delivery.stream);
    if sinks[i].wants(delivery.stream) {
        let at = choose|at: u64| #[trigger]
            before.may_find(key, at) && delivered_from(
                sinks,
                i,
                observer,
                delivery,
                at,
                before.remembering(key, at),
                after,
            );
        assert(before.may_find(key, at));
    }
    assert(after.memory.remove(key) =~= before.memory.remove(key));
    assert(after.saved.remove(key) =~= before.saved.remove(key));
}

/// An event that a sink wants and does not have yet is handed to it, also where an
/// earlier one is missing. If the sink takes it, and it is the next one, the
/// checkpoint moves to it, unless that cannot be saved; if the sink fails, the
/// observer learns which sink failed on what, and the checkpoint stays.
pub proof fn a_wanted_event_is_handed_over(
    sinks: Seq<Arc<dyn ProjectionSink>>,
    i: int,
    observer: Option<Arc<dyn SinkFailureObserver>>,
    delivery: DeliveryView,
    before: Marks,
    after: Marks,
    at: u64,
)
    requires
        delivered(sinks, i, observer, delivery, before, after),
        sinks[i].wants(delivery.stream),
        before.memory.dom().contains((sinks[i].name(), delivery.stream)),
        before.memory[(sinks[i].name(), delivery.stream)] == at,
        delivery.seq > at,
    ensures
        exists|outcome: Result<(), ErrorView>| #[trigger]
            sinks[i].may_report(delivery, outcome) && {
                let key = (sinks[i].name(), delivery.stream);
                &&& outcome is Ok && delivery.seq == at + 1 ==> after.memory[key] == delivery.seq
                    || (before.durable && !before.sure && after.memory[key] == at)
                &&& !(outcome is Ok && delivery.seq == at + 1) ==> after.memory[key] == at
                &&& outcome matches Err(e) ==> (observer matches Some(o) ==> o.was_told(
                    DispatchFailureView {
                        sink: sinks[i].name(),
                        stream: delivery.stream,
                        seq: Some(SeqNo(delivery.seq)),
                        op: SinkOp::Commit,
                        error: error_words(e),
                    },
                ))
            },
{
    let key = (sinks[i].name(), delivery.stream);
    let found = choose|found: u64| #[trigger]
        before.may_find(key, found) && delivered_from(
            sinks,
            i,
            observer,
            delivery,
            found,
            before.remembering(key, found),
            after,
        );
    assert(found == at);
}

/// Of the sinks with one id, the first is meant.
pub proof fn an_id_means_the_first_sink<K: CheckpointBackend>(
    dispatcher: SinkDispatcher<K>,
    sink_id: Seq<char>,
)
    ensures
        match dispatcher.first_named(sink_id) {
            Some(i) => {
                &&& 0 <= i < dispatcher.sinks().len()
                &&& dispatcher.sinks()[i].name() == sink_id
                &&& forall|j: int|
                    0 <= j < i ==> (#[trigger] dispatcher.sinks()[j]).name() != sink_id
            },
            None => forall|j: int|
                0 <= j < dispatcher.sinks().len() ==> (#[trigger] dispatcher.sinks()[j]).name()
                    != sink_id,
        },
{
    let sinks = dispatcher.sinks();
    if has_name(sinks, sink_id) {
        let some = choose|i: int| 0 <= i < sinks.len() && (#[trigger] sinks[i]).name() == sink_id;
        let first = first_of(sinks, sink_id, some);
        assert(sinks[first].name() == sink_id);
    }
}

/// The first sink with the id of the one at `some`.
proof fn first_of(sinks: Seq<Arc<dyn ProjectionSink>>, sink_id: Seq<char>, some: int) -> (r: int)
    requires
        0 <= some < sinks.len(),
        sinks[some].name() == sink_id,
    ensures
        0 <= r <= some,
        sinks[r].name() == sink_id,
        forall|j: int| 0 <= j < r ==> (#[trigger] sinks[j]).name() != sink_id,
    decreases some,
{
    if exists|j: int| 0 <= j < some && (#[trigger] sinks[j]).name() == sink_id {
        let j = choose|j: int| 0 <= j < some && (#[trigger] sinks[j]).name() == sink_id;
        first_of(sinks, sink_id, j)
    } else {
        some
    }
}

/// A rebuild starts from the beginning: a checkpoint that was reset is found at
/// zero, whether or not that could be saved.
pub proof fn a_reset_checkpoint_is_zero(
    before: Marks,
    fresh: Marks,
    key: (Seq<char>, Seq<char>),
    found: u64,
)
    requires
        was_reset(before, fresh, key),
        fresh.may_find(key, found),
    ensures
        found == 0,
{
}

/// A checkpoint that was moved is found again by a process that remembers
/// nothing, where checkpoints are saved and neither saving nor restoring fails.
pub proof fn a_moved_checkpoint_survives_a_restart(
    before: Marks,
    key: (Seq<char>, Seq<char>),
    at: u64,
    found: u64,
)
    requires
        before.durable,
        before.sure,
        (Marks { memory: Map::empty(), ..before.advanced(key, at) }).may_find(key, found),
    ensures
        found == at,
{
}

impl<E: EventBackend, C: CacheBackend, K: CheckpointBackend> Store<E, C, K> {
    /// A sink that stands at `from` on a stream is owed every later event, whatever its
    /// kind, and no other.
    pub proof fn a_sink_is_owed_every_later_event(
        &self,
        stream: Seq<char>,
        from: u64,
        event: EventView,
    )
        requires
            self.wf(),
        ensures
            self.pending(stream, from).contains(event) <==> self.events_of(stream).contains(event)
                && event.seq > from,
            self.pending(stream, from) == self.events_of(stream).skip(
                self.events_of(stream).len() - self.pending(stream, from).len(),
            ),
    {
        let shown = self.events_of(stream);
        let pending = self.pending(stream, from);
        shown_is_gap_free(self, stream);
        let n = count_before(shown, from + 1);
        assert(pending =~= shown.skip(n));
        if pending.contains(event) {
            let i = pending.index_of(event);
            assert(pending[i] == shown[n + i]);
        }
        if shown.contains(event) && event.seq > from {
            let i = shown.index_of(event);
            assert(shown[i].seq == shown[0].seq + i);
            assert(pending[i - n] == event);
        }
    }

    /// Each event that a sink took while it caught up was handed to it, with the state
    /// at its coordinate, and the sink reported success.
    pub proof fn a_run_hands_over_each_event(
        &self,
        i: int,
        stream: Seq<char>,
        run: Run,
        before: Marks,
        after: Marks,
        report: ReportView,
        reported: ReportView,
        n: int,
    )
        requires
            self.is_run(i, stream, run, before, after, report, reported),
            0 <= n < run.states.len(),
        ensures
            ({
                let event = self.pending(stream, run.from)[n];
                self.dispatcher().sinks()[i].may_report(
                    DeliveryView { stream, seq: event.seq, state: run.states[n], event },
                    Ok(()),
                )
            }),
            reported.applied == report.applied + run.states.len(),
            before.may_find((self.dispatcher().sinks()[i].name(), stream), run.from),
    {
        assert(run.states[n] == run.states[n]);
    }

    /// A catch-up with a reset hands a sink that wants a stream its events from the
    /// first on, wherever its checkpoint stood.
    pub proof fn a_rebuild_starts_with_the_first_event(
        &self,
        i: int,
        stream: Seq<char>,
        before: Marks,
        after: Marks,
        report: ReportView,
        reported: ReportView,
    )
        requires
            self.wf(),
            self.stream_step(i, stream, true, before, after, report, reported),
            self.dispatcher().sinks()[i].wants(stream),
        ensures
            exists|fresh: Marks, run: Run| #[trigger]
                self.is_run(i, stream, run, fresh, after, report, reported) && run.from == 0
                    && self.pending(stream, run.from) == self.events_of(stream),
    {
        let key = (self.dispatcher.sinks()[i].name(), stream);
        let (fresh, run) = choose|fresh: Marks, run: Run| #[trigger]
            self.is_run(i, stream, run, fresh, after, report, reported) && was_reset(
                before,
                fresh,
                key,
            );
        a_reset_checkpoint_is_zero(before, fresh, key, run.from);
        shown_is_gap_free(self, stream);
        assert(self.pending(stream, 0) =~= self.events_of(stream));
    }

    /// A catch-up leaves a stream alone that the sink does not want.
    pub proof fn an_unwanted_stream_is_left_alone(
        &self,
        i: int,
        stream: Seq<char>,
        reset: bool,
        before: Marks,
        after: Marks,
        report: ReportView,
        reported: ReportView,
    )
        requires
            self.stream_step(i, stream, reset, before, after, report, reported),
            !self.dispatcher().sinks()[i].wants(stream),
        ensures
            after == before,
            reported == report,
    {
    }

    /// The first catch-up in a process of a sink that keeps its state in memory starts
    /// from the beginning; no other does.
    pub proof fn only_the_first_catch_up_escalates(&self, i: int, sink_id: Seq<char>)
        requires
            self.dispatcher().first_named(sink_id) == Some(i),
        ensures
            self.escalates(sink_id) <==> self.dispatcher().sinks()[i].starts_empty()
                && !self.dispatcher().caught_up().contains(sink_id),
    {
    }

    /// Handing a sink a state hands it the state at the coordinate that was asked for,
    /// or at the head, with the event there, and tells that coordinate; what the sink
    /// reports is what comes back.
    pub proof fn a_sink_is_handed_the_state_asked_for(
        &self,
        i: int,
        stream: Seq<char>,
        at: Option<SeqNo>,
        r: Result<SeqNo, StoreError>,
    )
        requires
            self.handed_over(i, stream, at, r),
        ensures
            r matches Ok(done) ==> {
                &&& at matches Some(seq) ==> done == seq
                &&& at is None ==> self.log().head(stream) == Some(done.0)
                &&& self.answer_at(stream, done.0) matches Ok(state)
                    && self.dispatcher().sinks()[i].may_report(
                    DeliveryView {
                        stream,
                        seq: done.0,
                        state,
                        event: self.event_at(stream, done.0),
                    },
                    Ok(()),
                )
            },
            at is None && self.log().head(stream) is None ==> (r matches Err(e) && e@
                == ErrorView::UnknownStream(stream)),
    {
    }

    /// The checkpoint of the sink at position `i` on `stream` stands at the head
    /// or beyond it.
    pub open spec fn stands_at_head(&self, i: int, stream: Seq<char>, marks: Marks) -> bool {
        let key = (self.dispatcher().sinks()[i].name(), stream);
        &&& marks.memory.dom().contains(key)
        &&& self.log().head(stream) matches Some(head) ==> marks.memory[key] >= head
    }

    /// Every event that a sink had to take on a stream is counted once: as
    /// applied, as failed, or as skipped. At most one fails, and a stream on
    /// which none fails is driven to its head.
    pub proof fn a_run_accounts_for_every_event(
        &self,
        i: int,
        stream: Seq<char>,
        run: Run,
        before: Marks,
        after: Marks,
        report: ReportView,
        reported: ReportView,
    )
        requires
            self.wf(),
            self.is_run(i, stream, run, before, after, report, reported),
        ensures
            reported.applied + reported.failed + reported.skipped == report.applied + report.failed
                + report.skipped + self.pending(stream, run.from).len(),
            reported.failed == report.failed + if run.stopped is Some {
                1nat
            } else {
                0nat
            },
            reported.failures.len() == report.failures.len() + (reported.failed - report.failed),
            run.stopped is None ==> self.stands_at_head(i, stream, after),
            one_key_moved(before, after, (self.dispatcher().sinks()[i].name(), stream)),
    {
        let key = (self.dispatcher.sinks()[i].name(), stream);
        let pending = self.pending(stream, run.from);
        let shown = self.events_of(stream);
        shown_is_gap_free(self, stream);
        assert(after.memory.remove(key) =~= before.memory.remove(key));
        assert(after.saved.remove(key) =~= before.saved.remove(key));
        if run.stopped is None && shown.len() > 0 {
            assert(shown[shown.len() - 1] == shown.last());
            if pending.len() > 0 {
                assert(pending[pending.len() - 1] == shown.last());
            }
        }
    }

    /// The state at an event is the state at the event before it with its patch
    /// applied.
    proof fn next_state_of_the_log(&self, stream: Seq<char>, from: u64, n: int, last: Seq<char>)
        requires
            self.wf(),
            0 < n < self.pending(stream, from).len(),
            history(self.events_of(stream), self.pending(stream, from)[n - 1].seq as int)
                == StateResult::Ok(last),
        ensures
            patched(last, self.pending(stream, from)[n].patch) matches Ok(next) ==> history(
                self.events_of(stream),
                self.pending(stream, from)[n].seq as int,
            ) == StateResult::Ok(next),
    {
        let pending = self.pending(stream, from);
        let shown = self.events_of(stream);
        let event = pending[n];
        shown_is_gap_free(self, stream);
        let origin = count_before(shown, from + 1);
        assert(event == shown[origin + n]);
        assert(event.seq == shown[0].seq + origin + n);
        let before = until(shown, pending[n - 1].seq as int);
        assert(pending[n - 1] == shown[origin + n - 1]);
        assert(pending[n - 1].seq == shown[0].seq + origin + n - 1);
        assert(until(shown, event.seq as int) =~= before + seq![event]);
        replay_in_two_steps(empty_text(), before, seq![event]);
        assert(seq![event].drop_last() =~= Seq::<EventView>::empty());
        assert(replay(last, Seq::<EventView>::empty()) == StateResult::Ok(last));
    }

    /// The states that a sink is handed while it catches up are the states of the
    /// log, whatever came from the cache.
    pub proof fn a_run_hands_over_the_states_of_the_log(
        &self,
        i: int,
        stream: Seq<char>,
        run: Run,
        before: Marks,
        after: Marks,
        report: ReportView,
        reported: ReportView,
        n: int,
    )
        requires
            self.wf(),
            self.cache_is_coherent(),
            self.is_run(i, stream, run, before, after, report, reported),
            0 <= n < run.states.len(),
        ensures
            history(self.events_of(stream), self.pending(stream, run.from)[n].seq as int)
                == StateResult::Ok(run.states[n]),
        decreases n,
    {
        let event = self.pending(stream, run.from)[n];
        assert(self.given_state(stream, Self::running(run.states, n), event) == Some(
            run.states[n],
        ));
        if n == 0 {
            self.answers_come_from_the_log(stream, event.seq);
        } else {
            self.a_run_hands_over_the_states_of_the_log(
                i,
                stream,
                run,
                before,
                after,
                report,
                reported,
                n - 1,
            );
            self.next_state_of_the_log(stream, run.from, n, run.states[n - 1]);
        }
    }

    /// What one step of a catch-up does to the report and to the marks.
    proof fn a_step_in_short(
        &self,
        i: int,
        stream: Seq<char>,
        reset: bool,
        before: Marks,
        after: Marks,
        report: ReportView,
        reported: ReportView,
    )
        requires
            self.wf(),
            self.stream_step(i, stream, reset, before, after, report, reported),
        ensures
            reported.failed >= report.failed,
            reported.failures.len() == report.failures.len() + (reported.failed - report.failed),
            one_key_moved(before, after, (self.dispatcher().sinks()[i].name(), stream)),
            self.dispatcher().sinks()[i].wants(stream) && reported.failed == report.failed
                ==> self.stands_at_head(i, stream, after),
    {
        let key = (self.dispatcher.sinks()[i].name(), stream);
        if !self.dispatcher.sinks()[i].wants(stream) {
        } else if reset {
            let (fresh, run) = choose|fresh: Marks, run: Run| #[trigger]
                self.is_run(i, stream, run, fresh, after, report, reported) && was_reset(
                    before,
                    fresh,
                    key,
                );
            self.a_run_accounts_for_every_event(
                i,
                stream,
                run,
                fresh,
                after,
                report,
                reported,
            );
            assert(fresh.memory.remove(key) =~= before.memory.remove(key));
            assert(fresh.saved.remove(key) =~= before.saved.remove(key));
        } else {
            let run = choose|run: Run| #[trigger]
                self.is_run(i, stream, run, before, after, report, reported);
            self.a_run_accounts_for_every_event(
                i,
                stream,
                run,
                before,
                after,
                report,
                reported,
            );
        }
    }

    /// What the first `n` steps of a catch-up come to.
    proof fn steps_in_short(
        &self,
        i: int,
        reset: bool,
        names: Seq<StreamId>,
        marks: Seq<Marks>,
        reports: Seq<ReportView>,
        n: int,
    )
        requires
            self.wf(),
            self.caught_up(i, reset, names, marks, reports),
            0 <= n <= names.len(),
        ensures
            reports[n].failed == reports[n].failures.len(),
            forall|m: int| 0 <= m <= n ==> (#[trigger] reports[m]).failed <= reports[n].failed,
            reports[n].failed == 0 ==> forall|m: int|
                0 <= m < n && self.dispatcher().sinks()[i].wants(#[trigger] names[m]@)
                    ==> self.stands_at_head(i, names[m]@, marks[n]),
        decreases n,
    {
        if n > 0 {
            self.steps_in_short(i, reset, names, marks, reports, n - 1);
            let stream = names[n - 1]@;
            self.a_step_in_short(
                i,
                stream,
                reset,
                marks[n - 1],
                marks[n],
                reports[n - 1],
                reports[n],
            );
            if reports[n].failed == 0 {
                assert forall|m: int|
                    0 <= m < n && self.dispatcher.sinks()[i].wants(
                        #[trigger] names[m]@,
                    ) implies self.stands_at_head(i, names[m]@, marks[n]) by {
                    if m < n - 1 {
                        assert(names[m]@ != names[n - 1]@);
                        let key = (self.dispatcher.sinks()[i].name(), names[m]@);
                        let moved = (self.dispatcher.sinks()[i].name(), stream);
                        assert(marks[n - 1].memory.remove(moved).dom().contains(key));
                        assert(marks[n].memory.remove(moved).dom().contains(key));
                        assert(marks[n].memory.remove(moved)[key] == marks[n - 1].memory.remove(
                            moved,
                        )[key]);
                    }
                }
            }
        }
    }

    /// A catch-up reports each failed event with one failure, and one that
    /// reports none has driven the sink to the head of every stream it wants.
    pub proof fn a_catch_up_without_failures_reaches_every_head(
        &self,
        i: int,
        reset: bool,
        before: Marks,
        after: Marks,
        report: ReportView,
        stream: Seq<char>,
    )
        requires
            self.wf(),
            self.catches_up(i, reset, before, after, report),
        ensures
            report.failed == report.failures.len(),
            report.failed == 0 && self.log().known(stream) && self.dispatcher().sinks()[i].wants(
                stream,
            ) ==> self.stands_at_head(i, stream, after),
    {
        let (names, marks, reports) = choose|
            names: Seq<StreamId>,
            marks: Seq<Marks>,
            reports: Seq<ReportView>,
        | #[trigger]
            self.caught_up(i, reset, names, marks, reports) && marks.first() == before
                && marks.last() == after && reports.last() == report;
        self.steps_in_short(i, reset, names, marks, reports, names.len() as int);
        if self.log().known(stream) {
            let m = choose|m: int| 0 <= m < names.len() && #[trigger] names[m]@ == stream;
            assert(names[m]@ == stream);
        }
    }

    /// The sink at position `i` took the events of `stream` after `from`, one by one,
    /// with `states`, and its checkpoint stands in `after` at the last of them; at
    /// `from` itself, where it took none. After a reset that is the beginning,
    /// otherwise where the checkpoint was found.
    pub open spec fn stands_where_it_got(
        &self,
        i: int,
        stream: Seq<char>,
        reset: bool,
        before: Marks,
        after: Marks,
        from: u64,
        states: Seq<Seq<char>>,
    ) -> bool {
        let key = (self.dispatcher().sinks()[i].name(), stream);
        let pending = self.pending(stream, from);
        &&& if reset {
            from == 0
        } else {
            before.may_find(key, from)
        }
        &&& self.took(i, stream, pending, states)
        &&& after.memory.dom().contains(key)
        &&& after.memory[key] == if states.len() == 0 {
            from
        } else {
            pending[states.len() - 1].seq
        }
    }

    /// The checkpoint of the sink at position `i` on `stream` did not move past an
    /// event that the sink did not take.
    pub open spec fn skipped_nothing(
        &self,
        i: int,
        stream: Seq<char>,
        reset: bool,
        before: Marks,
        after: Marks,
    ) -> bool {
        ||| same_mark(before, after, (self.dispatcher().sinks()[i].name(), stream))
        ||| exists|from: u64, states: Seq<Seq<char>>| #[trigger]
            self.stands_where_it_got(i, stream, reset, before, after, from, states)
    }

    /// One step of a catch-up skips nothing on its stream.
    proof fn a_step_skips_nothing(
        &self,
        i: int,
        stream: Seq<char>,
        reset: bool,
        before: Marks,
        after: Marks,
        report: ReportView,
        reported: ReportView,
    )
        requires
            self.stream_step(i, stream, reset, before, after, report, reported),
        ensures
            self.skipped_nothing(i, stream, reset, before, after),
    {
        let key = (self.dispatcher.sinks()[i].name(), stream);
        if !self.dispatcher.sinks()[i].wants(stream) {
        } else if reset {
            let (fresh, run) = choose|fresh: Marks, run: Run| #[trigger]
                self.is_run(i, stream, run, fresh, after, report, reported) && was_reset(
                    before,
                    fresh,
                    key,
                );
            a_reset_checkpoint_is_zero(before, fresh, key, run.from);
            assert(self.stands_where_it_got(
                i,
                stream,
                reset,
                before,
                after,
                run.from,
                run.states,
            ));
        } else {
            let run = choose|run: Run| #[trigger]
                self.is_run(i, stream, run, before, after, report, reported);
            assert(self.stands_where_it_got(
                i,
                stream,
                reset,
                before,
                after,
                run.from,
                run.states,
            ));
        }
    }

    /// A stream on which the storage failed skips nothing, and no other checkpoint
    /// moves.
    proof fn a_break_skips_nothing(
        &self,
        i: int,
        stream: Seq<char>,
        reset: bool,
        before: Marks,
        after: Marks,
        error: ErrorView,
    )
        requires
            self.stream_broke_off(i, stream, reset, before, after, error),
        ensures
            self.skipped_nothing(i, stream, reset, before, after),
            one_key_moved(before, after, (self.dispatcher().sinks()[i].name(), stream)),
    {
        let key = (self.dispatcher.sinks()[i].name(), stream);
        let fresh = if reset {
            choose|fresh: Marks| #[trigger]
                was_reset(before, fresh, key) && self.left_off(i, stream, fresh, after)
        } else {
            before
        };
        if after == fresh {
            if reset {
                assert(self.stands_where_it_got(
                    i,
                    stream,
                    reset,
                    before,
                    after,
                    0,
                    Seq::empty(),
                ));
            }
        } else {
            let (from, states) = choose|from: u64, states: Seq<Seq<char>>| #[trigger]
                self.broke_off(i, stream, from, states, fresh, after);
            if reset {
                a_reset_checkpoint_is_zero(before, fresh, key, from);
            }
            assert(self.stands_where_it_got(i, stream, reset, before, after, from, states));
        }
        assert(fresh.memory.remove(key) =~= before.memory.remove(key));
        assert(fresh.saved.remove(key) =~= before.saved.remove(key));
        assert(after.memory.remove(key) =~= fresh.memory.remove(key));
        assert(after.saved.remove(key) =~= fresh.saved.remove(key));
    }

    /// The steps from `a` to `b` keep the checkpoint on a stream that is not among
    /// theirs.
    proof fn other_steps_keep_a_mark(
        &self,
        i: int,
        reset: bool,
        names: Seq<StreamId>,
        marks: Seq<Marks>,
        reports: Seq<ReportView>,
        a: int,
        b: int,
        stream: Seq<char>,
    )
        requires
            self.wf(),
            0 <= a <= b < marks.len(),
            b <= names.len(),
            forall|n: int| a <= n < b ==> #[trigger] names[n]@ != stream,
            forall|n: int|
                a <= n < b ==> self.stream_step(
                    i,
                    #[trigger] names[n]@,
                    reset,
                    marks[n],
                    marks[n + 1],
                    reports[n],
                    reports[n + 1],
                ),
        ensures
            same_mark(marks[a], marks[b], (self.dispatcher().sinks()[i].name(), stream)),
        decreases b - a,
    {
        if a < b {
            self.other_steps_keep_a_mark(i, reset, names, marks, reports, a, b - 1, stream);
            let last = names[b - 1]@;
            self.a_step_in_short(
                i,
                last,
                reset,
                marks[b - 1],
                marks[b - 1 + 1],
                reports[b - 1],
                reports[b - 1 + 1],
            );
            another_mark_stays(
                marks[b - 1],
                marks[b],
                (self.dispatcher.sinks()[i].name(), last),
                (self.dispatcher.sinks()[i].name(), stream),
            );
        }
    }

    /// What happened to a checkpoint between two moments is what happened to it, if
    /// it is the same before and after them.
    proof fn nothing_skipped_in_between(
        &self,
        i: int,
        stream: Seq<char>,
        reset: bool,
        first: Marks,
        before: Marks,
        after: Marks,
        last: Marks,
    )
        requires
            same_mark(first, before, (self.dispatcher().sinks()[i].name(), stream)),
            self.skipped_nothing(i, stream, reset, before, after),
            same_mark(after, last, (self.dispatcher().sinks()[i].name(), stream)),
        ensures
            self.skipped_nothing(i, stream, reset, first, last),
    {
        let key = (self.dispatcher.sinks()[i].name(), stream);
        if !same_mark(before, after, key) {
            let (from, states) = choose|from: u64, states: Seq<Seq<char>>| #[trigger]
                self.stands_where_it_got(i, stream, reset, before, after, from, states);
            assert(self.stands_where_it_got(i, stream, reset, first, last, from, states));
        }
    }

    /// A catch-up skips nothing: on every stream the checkpoint either stays or
    /// stands at the last event that the sink took, one after the other, from where
    /// it started.
    pub proof fn a_catch_up_skips_nothing(
        &self,
        i: int,
        reset: bool,
        before: Marks,
        after: Marks,
        report: ReportView,
        stream: Seq<char>,
    )
        requires
            self.wf(),
            self.catches_up(i, reset, before, after, report),
        ensures
            self.skipped_nothing(i, stream, reset, before, after),
    {
        let (names, marks, reports) = choose|
            names: Seq<StreamId>,
            marks: Seq<Marks>,
            reports: Seq<ReportView>,
        | #[trigger]
            self.caught_up(i, reset, names, marks, reports) && marks.first() == before
                && marks.last() == after && reports.last() == report;
        let end = names.len() as int;
        if exists|m: int| 0 <= m < end && #[trigger] names[m]@ == stream {
            let m = choose|m: int| 0 <= m < end && #[trigger] names[m]@ == stream;
            self.other_steps_keep_a_mark(i, reset, names, marks, reports, 0, m, stream);
            self.other_steps_keep_a_mark(i, reset, names, marks, reports, m + 1, end, stream);
            self.a_step_skips_nothing(
                i,
                names[m]@,
                reset,
                marks[m],
                marks[m + 1],
                reports[m],
                reports[m + 1],
            );
            self.nothing_skipped_in_between(
                i,
                stream,
                reset,
                before,
                marks[m],
                marks[m + 1],
                after,
            );
        } else {
            self.other_steps_keep_a_mark(i, reset, names, marks, reports, 0, end, stream);
        }
    }

    /// A catch-up that the storage made fail skips nothing either: the checkpoints
    /// that it leaves are those of events that the sink took, so that the next
    /// catch-up goes on from there.
    pub proof fn a_failed_catch_up_skips_nothing(
        &self,
        i: int,
        reset: bool,
        before: Marks,
        after: Marks,
        error: ErrorView,
        stream: Seq<char>,
    )
        requires
            self.wf(),
            self.breaks_off(i, reset, before, after, error),
        ensures
            self.skipped_nothing(i, stream, reset, before, after),
    {
        let key = (self.dispatcher.sinks()[i].name(), stream);
        if exists|names: Seq<StreamId>, marks: Seq<Marks>, reports: Seq<ReportView>| #[trigger]
            self.got_to(i, reset, names, marks, reports, after, error) && marks.first() == before {
            let (names, marks, reports) = choose|
                names: Seq<StreamId>,
                marks: Seq<Marks>,
                reports: Seq<ReportView>,
            | #[trigger]
                self.got_to(i, reset, names, marks, reports, after, error) && marks.first()
                    == before;
            let done = marks.len() - 1;
            let broken = names[done]@;
            self.a_break_skips_nothing(i, broken, reset, marks[done], after, error);
            if broken == stream {
                assert forall|n: int| 0 <= n < done implies #[trigger] names[n]@ != stream by {
                    assert(names[n]@ != names[done]@);
                }
                self.other_steps_keep_a_mark(i, reset, names, marks, reports, 0, done, stream);
                self.nothing_skipped_in_between(
                    i,
                    stream,
                    reset,
                    before,
                    marks[done],
                    after,
                    after,
                );
            } else {
                another_mark_stays(
                    marks[done],
                    after,
                    (self.dispatcher.sinks()[i].name(), broken),
                    key,
                );
                if exists|m: int| 0 <= m < done && #[trigger] names[m]@ == stream {
                    let m = choose|m: int| 0 <= m < done && #[trigger] names[m]@ == stream;
                    self.other_steps_keep_a_mark(i, reset, names, marks, reports, 0, m, stream);
                    self.other_steps_keep_a_mark(
                        i,
                        reset,
                        names,
                        marks,
                        reports,
                        m + 1,
                        done,
                        stream,
                    );
                    self.a_step_skips_nothing(
                        i,
                        names[m]@,
                        reset,
                        marks[m],
                        marks[m + 1],
                        reports[m],
                        reports[m + 1],
                    );
                    self.nothing_skipped_in_between(
                        i,
                        stream,
                        reset,
                        before,
                        marks[m],
                        marks[m + 1],
                        after,
                    );
                } else {
                    self.other_steps_keep_a_mark(
                        i,
                        reset,
                        names,
                        marks,
                        reports,
                        0,
                        done,
                        stream,
                    );
                }
            }
        }
    }

    /// A stream whose states cannot be had stops no other: where log and cache work,
    /// a catch-up succeeds, and what it could not hand over is in its report.
    pub proof fn a_broken_stream_stops_no_other(
        &self,
        earlier: &Self,
        i: int,
        sink_id: Seq<char>,
        reset: bool,
        r: Result<CatchUpReport, StoreError>,
    )
        requires
            earlier.reliable(),
            earlier.dispatcher().first_named(sink_id) == Some(i),
            self.catch_up_effect(earlier, sink_id, reset, r),
        ensures
            r matches Ok(report) && earlier.catches_up(
                i,
                reset,
                earlier.marks(),
                self.marks(),
                report@,
            ),
    {
    }

    /// The first `n` steps of a catch-up that has nothing to do.
    proof fn idle_steps(
        &self,
        i: int,
        names: Seq<StreamId>,
        marks: Seq<Marks>,
        reports: Seq<ReportView>,
        n: int,
    )
        requires
            self.wf(),
            self.caught_up(i, false, names, marks, reports),
            forall|stream: Seq<char>| #[trigger]
                self.log().known(stream) && self.dispatcher().sinks()[i].wants(stream)
                    ==> self.stands_at_head(i, stream, marks[0]),
            0 <= n <= names.len(),
        ensures
            marks[n] == marks[0],
            reports[n] == empty_report(),
        decreases n,
    {
        if n > 0 {
            self.idle_steps(i, names, marks, reports, n - 1);
            let stream = names[n - 1]@;
            assert(self.log().known(stream));
            assert(self.stream_step(
                i,
                stream,
                false,
                marks[n - 1],
                marks[n - 1 + 1],
                reports[n - 1],
                reports[n - 1 + 1],
            ));
            if self.dispatcher.sinks()[i].wants(stream) {
                let key = (self.dispatcher.sinks()[i].name(), stream);
                let run = choose|run: Run| #[trigger]
                    self.is_run(i, stream, run, marks[n - 1], marks[n], reports[n - 1], reports[n]);
                let shown = self.events_of(stream);
                shown_is_gap_free(self, stream);
                assert(shown[shown.len() - 1] == shown.last());
                assert(run.from == marks[n - 1].memory[key]);
                assert(self.pending(stream, run.from).len() == 0);
                assert(marks[n].memory =~= marks[n - 1].memory);
                assert(reports[n] =~= report_taken(reports[n - 1], 0));
            }
        }
    }

    /// A sink that stands at every head has nothing to catch up with: the report
    /// is empty and no checkpoint moves.
    pub proof fn nothing_to_catch_up_with(
        &self,
        i: int,
        before: Marks,
        after: Marks,
        report: ReportView,
    )
        requires
            self.wf(),
            self.catches_up(i, false, before, after, report),
            forall|stream: Seq<char>| #[trigger]
                self.log().known(stream) && self.dispatcher().sinks()[i].wants(stream)
                    ==> self.stands_at_head(i, stream, before),
        ensures
            report == empty_report(),
            after == before,
    {
        let (names, marks, reports) = choose|
            names: Seq<StreamId>,
            marks: Seq<Marks>,
            reports: Seq<ReportView>,
        | #[trigger]
            self.caught_up(i, false, names, marks, reports) && marks.first() == before
                && marks.last() == after && reports.last() == report;
        assert forall|stream: Seq<char>| #[trigger]
            self.log().known(stream) && self.dispatcher.sinks()[i].wants(
                stream,
            ) implies self.stands_at_head(i, stream, marks[0]) by {}
        self.idle_steps(i, names, marks, reports, names.len() as int);
    }

    /// A sink that stands at every head has nothing to catch up with: a store that
    /// works says so, and no checkpoint moves.
    pub proof fn a_catch_up_at_the_heads_succeeds(
        &self,
        earlier: &Self,
        i: int,
        sink_id: Seq<char>,
        r: Result<CatchUpReport, StoreError>,
    )
        requires
            earlier.wf(),
            earlier.reliable(),
            earlier.dispatcher().first_named(sink_id) == Some(i),
            earlier.dispatcher().sinks()[i].name() == sink_id,
            self.catch_up_effect(earlier, sink_id, false, r),
            forall|stream: Seq<char>| #[trigger]
                earlier.log().known(stream) && earlier.dispatcher().sinks()[i].wants(stream)
                    ==> earlier.stands_at_head(i, stream, earlier.marks()),
        ensures
            r matches Ok(report) && report@ == empty_report(),
            self.marks() == earlier.marks(),
    {
        match r {
            Ok(report) => {
                earlier.nothing_to_catch_up_with(i, earlier.marks(), self.marks(), report@);
            },
            Err(_) => {},
        }
    }

    /// Catching up twice is catching up once: after a catch-up without failures
    /// another one succeeds, reports nothing and moves no checkpoint, where log and
    /// cache work. That holds of a sink that keeps its state in memory, too: it
    /// starts from the beginning only once.
    pub proof fn catching_up_again_does_nothing(
        &self,
        middle: &Self,
        earlier: &Self,
        i: int,
        sink_id: Seq<char>,
        reset: bool,
        first: CatchUpReport,
        r: Result<CatchUpReport, StoreError>,
    )
        requires
            earlier.wf(),
            middle.wf(),
            middle.reliable(),
            middle.only_marks_moved(earlier),
            earlier.dispatcher().first_named(sink_id) == Some(i),
            earlier.dispatcher().sinks()[i].name() == sink_id,
            middle.catch_up_effect(earlier, sink_id, reset, Ok(first)),
            middle.dispatcher().caught_up() == earlier.caught_up_after(sink_id, Ok(first)),
            first.failed == 0,
            self.catch_up_effect(middle, sink_id, middle.escalates(sink_id), r),
        ensures
            r matches Ok(second) && second@ == empty_report(),
            self.marks() == middle.marks(),
    {
        assert forall|stream: Seq<char>| #[trigger]
            middle.log().known(stream) && middle.dispatcher.sinks()[i].wants(
                stream,
            ) implies middle.stands_at_head(i, stream, middle.marks()) by {
            earlier.a_catch_up_without_failures_reaches_every_head(
                i,
                reset,
                earlier.marks(),
                middle.marks(),
                first@,
                stream,
            );
        }
        assert(middle.dispatcher.first_named(sink_id) == Some(i));
        self.a_catch_up_at_the_heads_succeeds(middle, i, sink_id, r);
    }
}

/// Every sink that wants the stream learns where a label points, with the state and the
/// event there; the observer learns which sink failed on it, and that it was about a
/// label.
pub proof fn every_sink_learns_of_a_label(
    sinks: Seq<Arc<dyn ProjectionSink>>,
    observer: Option<Arc<dyn SinkFailureObserver>>,
    label: Seq<char>,
    delivery: DeliveryView,
    i: int,
)
    requires
        label_announced(sinks, observer, label, delivery),
        0 <= i < sinks.len(),
        sinks[i].wants(delivery.stream),
    ensures
        exists|outcome: Result<(), ErrorView>| #[trigger]
            sinks[i].may_report_label(label, delivery, outcome) && (outcome matches Err(e) ==> (
            observer matches Some(o) ==> o.was_told(
                DispatchFailureView {
                    sink: sinks[i].name(),
                    stream: delivery.stream,
                    seq: None,
                    op: SinkOp::LabelSet,
                    error: error_words(e),
                },
            ))),
{
}

/// Every sink that wants the stream learns that a label is gone; the observer learns
/// which sink failed on it, and that it was about a label that is gone.
pub proof fn every_sink_learns_that_a_label_is_gone(
    sinks: Seq<Arc<dyn ProjectionSink>>,
    observer: Option<Arc<dyn SinkFailureObserver>>,
    stream: Seq<char>,
    label: Seq<char>,
    i: int,
)
    requires
        unlabel_announced(sinks, observer, stream, label),
        0 <= i < sinks.len(),
        sinks[i].wants(stream),
    ensures
        exists|outcome: Result<(), ErrorView>| #[trigger]
            sinks[i].may_report_unlabel(stream, label, outcome) && (outcome matches Err(e) ==> (
            observer matches Some(o) ==> o.was_told(
                DispatchFailureView {
                    sink: sinks[i].name(),
                    stream,
                    seq: None,
                    op: SinkOp::LabelDeleted,
                    error: error_words(e),
                },
            ))),
{
}

/// A committed event goes to every sink, one after the other, each time from where the
/// one before left the marks.
pub proof fn an_event_goes_to_every_sink(
    sinks: Seq<Arc<dyn ProjectionSink>>,
    observer: Option<Arc<dyn SinkFailureObserver>>,
    delivery: DeliveryView,
    before: Marks,
    after: Marks,
)
    requires
        dispatched(sinks, observer, delivery, before, after),
    ensures
        exists|marks: Seq<Marks>|
            marks.len() == sinks.len() + 1 && #[trigger] marks.first() == before && marks.last()
                == after && forall|i: int|
                0 <= i < sinks.len() ==> #[trigger] delivered(
                    sinks,
                    i,
                    observer,
                    delivery,
                    marks[i],
                    marks[i + 1],
                ),
{
    let marks = choose|marks: Seq<Marks>| #[trigger]
        delivered_to_all(sinks, observer, delivery, marks) && marks.first() == before
            && marks.last() == after;
    assert(marks.first() == before);
}

/// What is done with a committed event for one sink: one that it does not want or has
/// already is skipped, the next one moves the checkpoint, and one after a gap does not.
pub proof fn a_delivery_is_planned_by_the_checkpoint(
    accepted: bool,
    checkpoint: SeqNo,
    seq: SeqNo,
    r: Delivery,
)
    requires
        call_ensures(plan_delivery, (accepted, checkpoint, seq), r),
    ensures
        r == Delivery::Skip <==> !accepted || seq.0 <= checkpoint.0,
        r == Delivery::CommitAndAdvance <==> accepted && seq.0 == checkpoint.0 + 1,
        r == Delivery::CommitOnly <==> accepted && seq.0 > checkpoint.0 + 1,
{
}

/// A reset puts the checkpoint of one sink on one stream back to zero. Whether what was
/// saved goes back as well depends on the storage; what is remembered always does.
pub proof fn a_reset_is_remembered(before: Marks, after: Marks, key: (Seq<char>, Seq<char>))
    requires
        was_reset(before, after, key),
    ensures
        after.memory.dom().contains(key),
        after.memory[key] == 0,
        one_key_moved(before, after, key),
        before.durable && before.sure ==> after.saved.dom().contains(key) && after.saved[key] == 0,
        !before.durable ==> after.saved == before.saved,
{
    assert(after.memory.remove(key) =~= before.memory.remove(key));
    assert(after.saved.remove(key) =~= before.saved.remove(key));
}

impl<E: EventBackend, C: CacheBackend, K: CheckpointBackend> Store<E, C, K> {
    /// A catch-up of an id that no sink has does nothing, and says so.
    pub proof fn an_unknown_sink_has_nothing_to_catch_up_with(
        &self,
        earlier: &Self,
        sink_id: Seq<char>,
        reset: bool,
        r: Result<CatchUpReport, StoreError>,
    )
        requires
            self.catch_up_effect(earlier, sink_id, reset, r),
            forall|j: int|
                0 <= j < earlier.dispatcher().sinks().len() ==> (
                #[trigger] earlier.dispatcher().sinks()[j]).name() != sink_id,
        ensures
            r matches Ok(report) && report@.applied == 0 && report@.skipped == 0 && report@.failed
                == 0 && report@.failures.len() == 0,
            self.marks() == earlier.marks(),
    {
        an_id_means_the_first_sink(earlier.dispatcher(), sink_id);
    }

    /// A sink counts as caught up once a catch-up of it has succeeded, and not before.
    pub proof fn only_success_counts_as_caught_up(
        &self,
        sink_id: Seq<char>,
        r: Result<CatchUpReport, StoreError>,
        other: Seq<char>,
    )
        ensures
            r is Ok && has_name(self.dispatcher().sinks(), sink_id) ==> self.caught_up_after(
                sink_id,
                r,
            ).contains(sink_id),
            r is Err || !has_name(self.dispatcher().sinks(), sink_id) ==> self.caught_up_after(
                sink_id,
                r,
            ) == self.dispatcher().caught_up(),
            other != sink_id ==> self.caught_up_after(sink_id, r).contains(other)
                == self.dispatcher().caught_up().contains(other),
    {
    }

    /// Why a sink did not take an event, in words: the patch of the event does not apply,
    /// with its coordinate, or the state cannot be had, or the sink or the checkpoint
    /// failed.
    pub proof fn a_stopped_sink_says_why(
        &self,
        i: int,
        stream: Seq<char>,
        last: Seq<char>,
        event: EventView,
        marks: Marks,
        message: Seq<char>,
    )
        requires
            self.stop_reason(i, stream, Some(last), event, marks, message),
        ensures
            patched(last, event.patch) matches Err(m) ==> message == "patch apply seq="@ + decimal(
                event.seq as nat,
            ) + ": "@ + m,
            patched(last, event.patch) matches Ok(state) ==> {
                let delivery = DeliveryView { stream, seq: event.seq, state, event };
                ||| exists|e: ErrorView| #[trigger]
                    self.dispatcher().sinks()[i].may_report(delivery, Err(e)) && message
                        == error_words(e)
                ||| self.dispatcher().sinks()[i].may_report(delivery, Ok(())) && marks.durable
                    && !marks.sure && message == "checkpoint persistence failed"@
            },
    {
    }

    /// A sink that fails on a stream adds one failure to the report, and the events after
    /// the one that it failed on to those that were not delivered. All that was reported
    /// before stays.
    pub proof fn a_failure_is_added_to_the_report(
        report: ReportView,
        skipped: nat,
        failure: CatchUpFailureView,
    )
        ensures
            report_failure(report, skipped, failure).applied == report.applied,
            report_failure(report, skipped, failure).failed == report.failed + 1,
            report_failure(report, skipped, failure).skipped == report.skipped + skipped,
            report_failure(report, skipped, failure).failures == report.failures + seq![failure],
    {
        assert(report_failure(report, skipped, failure).failures =~= report.failures + seq![
            failure,
        ]);
    }

    /// Only storage that does not work makes a catch-up fail.
    pub proof fn only_the_storage_makes_a_catch_up_fail(
        &self,
        i: int,
        reset: bool,
        before: Marks,
        after: Marks,
        error: ErrorView,
    )
        requires
            self.reliable(),
        ensures
            !self.breaks_off(i, reset, before, after, error),
    {
    }
}

/// Where the checkpoints of every sink but one are kept, a checkpoint of another sink is
/// what it was, both as it is remembered and as it was saved.
pub proof fn another_sinks_checkpoints_stay(
    before: Marks,
    after: Marks,
    sink: Seq<char>,
    key: (Seq<char>, Seq<char>),
)
    requires
        others_kept(before, after, sink),
        key.0 != sink,
    ensures
        same_mark(before, after, key),
{
    reveal(crate::store::lifecycle::same_for_others);
}

impl<E: EventBackend, C: CacheBackend, K: CheckpointBackend> Store<E, C, K> {
    /// Why a sink did not take the first event that it was owed, in words: an earlier patch
    /// does not apply, so that there is no state to go with it, or the sink or the
    /// checkpoint failed.
    pub proof fn a_sink_that_did_not_start_says_why(
        &self,
        i: int,
        stream: Seq<char>,
        event: EventView,
        marks: Marks,
        message: Seq<char>,
    )
        requires
            self.reliable(),
            self.stop_reason(i, stream, None, event, marks, message),
        ensures
            match self.answer_at(stream, event.seq) {
                Err(error) => error matches ErrorView::Patch(m) && message
                    == "patch application failed: "@ + m,
                Ok(state) => {
                    let delivery = DeliveryView { stream, seq: event.seq, state, event };
                    ||| exists|e: ErrorView| #[trigger]
                        self.dispatcher().sinks()[i].may_report(delivery, Err(e)) && message
                            == error_words(e)
                    ||| self.dispatcher().sinks()[i].may_report(delivery, Ok(())) && marks.durable
                        && !marks.sure && message == "checkpoint persistence failed"@
                },
            },
    {
        if self.answer_at(stream, event.seq) is Err {
            let m = choose|m: Seq<char>|
                message == #[trigger] error_words(ErrorView::Patch(m)) && self.lacks_state(
                    stream,
                    event.seq,
                    ErrorView::Patch(m),
                );
            assert(self.answer_at(stream, event.seq)->Err_0 == ErrorView::Patch(m));
        }
    }
}

} // verus!
