//! Attaching sinks and bringing them up to date.
use std::sync::Arc;

use vstd::prelude::*;

use crate::backend::{
    lists_streams, nearest_of, CacheBackend, CheckpointBackend, EventBackend,
};
use crate::dispatcher::Marks;
use crate::error::{error_words, ErrorView, StoreError};
use crate::event::{event_views, Event, EventView};
use crate::faults::streams_may_fail;
use crate::id::{SeqNo, StreamId};
use crate::json::{apply_patch, json_text, patched};
use crate::mem::checkpoint::Marked;
use crate::log::{
    at_most, coordinates_are_contiguous, count_before, gap_free, has_event, head_of, next_of,
    since, until, LogView,
};
use crate::sink::{
    empty_report, CatchUpFailure, CatchUpFailureView, CatchUpReport, DeliveryView, ProjectionSink,
    ReportView,
};
use crate::state::{a_replay_fails_on_a_patch, empty_text, StateResult};
use crate::store::read::{between, shown_is_gap_free};
use crate::store::Store;
use crate::text::{decimal, decimal_text};

verus! {

/// The sum of the heads of the streams in `names`.
pub open spec fn heads(log: LogView, names: Seq<Seq<char>>) -> nat
    decreases names.len(),
{
    if names.len() == 0 {
        0
    } else {
        heads(log, names.drop_last()) + match log.head(names.last()) {
            Some(head) => head as nat,
            None => 0,
        }
    }
}

/// All streams together have come no further than `bound`.
pub open spec fn holds_at_most(log: LogView, bound: nat) -> bool {
    forall|names: Seq<Seq<char>>|
        names.no_duplicates() ==> #[trigger] heads(log, names) <= bound
}

/// A machine can count all events together.
pub open spec fn countable(log: LogView) -> bool {
    holds_at_most(log, usize::MAX as nat)
}

/// A log without events is countable.
pub proof fn an_empty_log_is_countable(log: LogView)
    requires
        forall|stream: Seq<char>| #[trigger] log.events(stream).len() == 0,
    ensures
        holds_at_most(log, 0),
        countable(log),
{
    assert forall|names: Seq<Seq<char>>| names.no_duplicates() implies #[trigger] heads(log, names)
        <= 0 by {
        no_heads(log, names);
    }
}

/// Each event that is appended counts for one.
pub proof fn an_event_counts_for_one(
    log: LogView,
    stream: Seq<char>,
    event: EventView,
    bound: nat,
)
    requires
        holds_at_most(log, bound),
        event.seq == next_of(log.events(stream)),
    ensures
        holds_at_most(log.appended(stream, event), bound + 1),
{
    assert forall|names: Seq<Seq<char>>| names.no_duplicates() implies #[trigger] heads(
        log.appended(stream, event),
        names,
    ) <= bound + 1 by {
        heads_once_appended(log, stream, event, names);
    }
}

/// What is no event, a label say, does not count.
pub proof fn only_events_count(log: LogView, other: LogView, bound: nat)
    requires
        holds_at_most(log, bound),
        forall|stream: Seq<char>| #[trigger] other.events(stream) == log.events(stream),
    ensures
        holds_at_most(other, bound),
{
    assert forall|names: Seq<Seq<char>>| names.no_duplicates() implies #[trigger] heads(
        other,
        names,
    ) <= bound by {
        same_heads(log, other, names);
    }
}

/// The heads of streams without events add up to nothing.
proof fn no_heads(log: LogView, names: Seq<Seq<char>>)
    requires
        forall|stream: Seq<char>| #[trigger] log.events(stream).len() == 0,
    ensures
        heads(log, names) == 0,
    decreases names.len(),
{
    if names.len() > 0 {
        assert(log.events(names.last()).len() == 0);
        no_heads(log, names.drop_last());
    }
}

/// One appended event adds one to the heads, if its stream is among them.
proof fn heads_once_appended(
    log: LogView,
    stream: Seq<char>,
    event: EventView,
    names: Seq<Seq<char>>,
)
    requires
        event.seq == next_of(log.events(stream)),
        names.no_duplicates(),
    ensures
        heads(log.appended(stream, event), names) == heads(log, names) + if names.contains(stream) {
            1nat
        } else {
            0nat
        },
    decreases names.len(),
{
    if names.len() > 0 {
        let after = log.appended(stream, event);
        let rest = names.drop_last();
        heads_once_appended(log, stream, event, rest);
        if names.last() == stream {
            assert(!rest.contains(stream)) by {
                if rest.contains(stream) {
                    let i = rest.index_of(stream);
                    assert(names[i] == names[names.len() - 1]);
                }
            }
            assert(names[names.len() - 1] == stream);
            assert(after.events(stream) == log.events(stream).push(event));
        } else {
            assert(names.contains(stream) == rest.contains(stream)) by {
                if names.contains(stream) {
                    let i = names.index_of(stream);
                    assert(rest[i] == stream);
                }
                if rest.contains(stream) {
                    let i = rest.index_of(stream);
                    assert(names[i] == stream);
                }
            }
            assert(after.events(names.last()) == log.events(names.last()));
        }
    }
}

/// The heads depend on the events alone.
proof fn same_heads(log: LogView, other: LogView, names: Seq<Seq<char>>)
    requires
        forall|stream: Seq<char>| #[trigger] other.events(stream) == log.events(stream),
    ensures
        heads(other, names) == heads(log, names),
    decreases names.len(),
{
    if names.len() > 0 {
        assert(other.events(names.last()) == log.events(names.last()));
        same_heads(log, other, names.drop_last());
    }
}

/// How one stream was driven forward for a sink.
pub struct Run {
    /// The checkpoint that it started from.
    pub from: u64,
    /// The states that the sink took, event by event.
    pub states: Seq<Seq<char>>,
    /// Why it stopped before the head, if it did.
    pub stopped: Option<Seq<char>>,
}

/// The message for a committed event whose patch does not apply.
pub open spec fn patch_apply_words(seq: u64, message: Seq<char>) -> Seq<char> {
    "patch apply seq="@ + decimal(seq as nat) + ": "@ + message
}

/// `after` are the marks `before` with the checkpoint of `key` reset. That the
/// saved checkpoint is reset too may fail without consequence.
pub open spec fn was_reset(before: Marks, after: Marks, key: (Seq<char>, Seq<char>)) -> bool {
    after == before.reset(key) || (before.durable && !before.sure && after == before.remembering(
        key,
        0,
    ))
}

/// The checkpoints of every sink but `sink` are the same in both.
#[verifier::opaque]
pub open spec fn same_for_others(before: Marked, after: Marked, sink: Seq<char>) -> bool {
    forall|key: (Seq<char>, Seq<char>)| #[trigger]
        key.0 != sink ==> {
            &&& after.dom().contains(key) == before.dom().contains(key)
            &&& after[key] == before[key]
        }
}

/// The checkpoints of every sink but `sink` are as they were.
pub open spec fn others_kept(before: Marks, after: Marks, sink: Seq<char>) -> bool {
    &&& after.durable == before.durable
    &&& after.sure == before.sure
    &&& same_for_others(before.memory, after.memory, sink)
    &&& same_for_others(before.saved, after.saved, sink)
}

/// Finding, moving and resetting the checkpoints of one sink keeps those of the
/// others.
proof fn own_marks_only(first: Marks, before: Marks, sink: Seq<char>, stream: Seq<char>, at: u64)
    requires
        others_kept(first, before, sink),
    ensures
        others_kept(first, before.remembering((sink, stream), at), sink),
        others_kept(first, before.advanced((sink, stream), at), sink),
        forall|after: Marks| #[trigger]
            was_reset(before, after, (sink, stream)) ==> others_kept(first, after, sink),
{
    reveal(same_for_others);
}

/// Keeping the others' checkpoints twice is keeping them.
proof fn kept_twice(first: Marks, second: Marks, third: Marks, sink: Seq<char>)
    requires
        others_kept(first, second, sink),
        others_kept(second, third, sink),
    ensures
        others_kept(first, third, sink),
{
    reveal(same_for_others);
}

/// Marks keep themselves.
proof fn kept_by_itself(marks: Marks, sink: Seq<char>)
    ensures
        others_kept(marks, marks, sink),
{
    reveal(same_for_others);
}

/// A report with `taken` more events applied.
pub open spec fn report_taken(report: ReportView, taken: nat) -> ReportView {
    ReportView { applied: report.applied + taken, ..report }
}

/// A report with one more failure, which left `skipped` events undelivered.
pub open spec fn report_failure(
    report: ReportView,
    skipped: nat,
    failure: CatchUpFailureView,
) -> ReportView {
    ReportView {
        failed: report.failed + 1,
        skipped: report.skipped + skipped,
        failures: report.failures.push(failure),
        ..report
    }
}

/// The text of a state that is at hand.
spec fn held_text(running: Option<serde_json::Value>) -> Option<Seq<char>> {
    match running {
        Some(state) => Some(json_text(state)),
        None => None,
    }
}

impl<E: EventBackend, C: CacheBackend, K: CheckpointBackend> Store<E, C, K> {
    /// The events of `stream` after coordinate `from`, as they are read.
    pub open spec fn pending(&self, stream: Seq<char>, from: u64) -> Seq<EventView> {
        since(self.events_of(stream), from + 1)
    }

    /// The state that goes with `event`: the state before with its patch applied,
    /// or the state at its coordinate where none is at hand.
    pub open spec fn given_state(
        &self,
        stream: Seq<char>,
        running: Option<Seq<char>>,
        event: EventView,
    ) -> Option<Seq<char>> {
        match running {
            Some(last) => match patched(last, event.patch) {
                Ok(state) => Some(state),
                Err(_) => None,
            },
            None => match self.answer_at(stream, event.seq) {
                Ok(state) => Some(state),
                Err(_) => None,
            },
        }
    }

    /// The state of `stream` at `at` cannot be had, for the reason `error`: that is
    /// what the log says, or the storage failed.
    pub open spec fn lacks_state(&self, stream: Seq<char>, at: u64, error: ErrorView) -> bool {
        ||| self.answer_at(stream, at) == StateResult::Err(error)
        ||| !self.reliable() && self.state_may_fail(stream, SeqNo(at), error)
    }

    /// Why the sink at position `i` did not take `event`: its patch does not apply,
    /// or one before it does not where no state is at hand, or the sink or the
    /// checkpoint failed.
    pub open spec fn stop_reason(
        &self,
        i: int,
        stream: Seq<char>,
        running: Option<Seq<char>>,
        event: EventView,
        marks: Marks,
        message: Seq<char>,
    ) -> bool {
        ||| (running matches Some(last) && (patched(last, event.patch) matches Err(m) && message
            == patch_apply_words(event.seq, m)))
        ||| (running is None && exists|m: Seq<char>|
            message == #[trigger] error_words(ErrorView::Patch(m)) && self.lacks_state(
                stream,
                event.seq,
                ErrorView::Patch(m),
            ))
        ||| (self.given_state(stream, running, event) matches Some(state) && {
            let delivery = DeliveryView { stream, seq: event.seq, state, event };
            ||| exists|e: ErrorView| #[trigger]
                self.dispatcher().sinks()[i].may_report(delivery, Err(e)) && message
                    == error_words(e)
            ||| self.dispatcher().sinks()[i].may_report(delivery, Ok(())) && marks.durable
                && !marks.sure && message == "checkpoint persistence failed"@
        })
    }

    /// The state before the event at position `n`, as far as one is at hand.
    pub open spec fn running(states: Seq<Seq<char>>, n: int) -> Option<Seq<char>> {
        if n == 0 {
            None
        } else {
            Some(states[n - 1])
        }
    }

    /// The sink at position `i` took `states`, event by event.
    pub open spec fn took(
        &self,
        i: int,
        stream: Seq<char>,
        pending: Seq<EventView>,
        states: Seq<Seq<char>>,
    ) -> bool {
        &&& states.len() <= pending.len()
        &&& forall|n: int|
            0 <= n < states.len() ==> {
                &&& self.given_state(stream, Self::running(states, n), pending[n]) == Some(
                    #[trigger] states[n],
                )
                &&& self.dispatcher().sinks()[i].may_report(
                    DeliveryView {
                        stream,
                        seq: pending[n].seq,
                        state: states[n],
                        event: pending[n],
                    },
                    Ok(()),
                )
            }
    }

    /// The marks once the sink at position `i`, found at `from`, took `n` of
    /// `pending`.
    pub open spec fn marks_after(
        &self,
        i: int,
        stream: Seq<char>,
        pending: Seq<EventView>,
        from: u64,
        n: nat,
        before: Marks,
    ) -> Marks {
        let key = (self.dispatcher().sinks()[i].name(), stream);
        let found = before.remembering(key, from);
        if n == 0 {
            found
        } else {
            found.advanced(key, pending[n - 1].seq)
        }
    }

    /// `run` is how the sink at position `i` was driven forward on `stream`.
    pub open spec fn is_run(
        &self,
        i: int,
        stream: Seq<char>,
        run: Run,
        before: Marks,
        after: Marks,
        report: ReportView,
        reported: ReportView,
    ) -> bool {
        let pending = self.pending(stream, run.from);
        let taken = run.states.len();
        &&& before.may_find((self.dispatcher().sinks()[i].name(), stream), run.from)
        &&& self.took(i, stream, pending, run.states)
        &&& after == self.marks_after(i, stream, pending, run.from, taken, before)
        &&& match run.stopped {
            None => taken == pending.len() && reported == report_taken(report, taken),
            Some(message) => {
                &&& taken < pending.len()
                &&& self.stop_reason(
                    i,
                    stream,
                    Self::running(run.states, taken as int),
                    pending[taken as int],
                    before,
                    message,
                )
                &&& reported == report_failure(
                    report_taken(report, taken),
                    (pending.len() - taken - 1) as nat,
                    CatchUpFailureView {
                        stream,
                        sink: self.dispatcher().sinks()[i].name(),
                        message,
                    },
                )
            },
        }
    }

    /// What a catch-up of the sink at position `i` does on one stream. A stream
    /// that the sink does not want is left alone.
    pub open spec fn stream_step(
        &self,
        i: int,
        stream: Seq<char>,
        reset: bool,
        before: Marks,
        after: Marks,
        report: ReportView,
        reported: ReportView,
    ) -> bool {
        if !self.dispatcher().sinks()[i].wants(stream) {
            after == before && reported == report
        } else if reset {
            exists|fresh: Marks, run: Run| #[trigger]
                self.is_run(i, stream, run, fresh, after, report, reported) && was_reset(
                    before,
                    fresh,
                    (self.dispatcher().sinks()[i].name(), stream),
                )
        } else {
            exists|run: Run| #[trigger]
                self.is_run(i, stream, run, before, after, report, reported)
        }
    }

    /// What a catch-up of the sink at position `i` does: stream by stream, in the
    /// order of `names`. `marks` and `reports` are those before the first
    /// stream, between two, and after the last.
    pub open spec fn caught_up(
        &self,
        i: int,
        reset: bool,
        names: Seq<StreamId>,
        marks: Seq<Marks>,
        reports: Seq<ReportView>,
    ) -> bool {
        &&& lists_streams(self.log(), names)
        &&& marks.len() == names.len() + 1
        &&& reports.len() == names.len() + 1
        &&& reports.first() == empty_report()
        &&& forall|n: int|
            0 <= n < names.len() ==> self.stream_step(
                i,
                #[trigger] names[n]@,
                reset,
                marks[n],
                marks[n + 1],
                reports[n],
                reports[n + 1],
            )
    }

    /// A catch-up of the sink at position `i` that starts from the marks `before`
    /// may end at `after` and report `report`.
    pub open spec fn catches_up(
        &self,
        i: int,
        reset: bool,
        before: Marks,
        after: Marks,
        report: ReportView,
    ) -> bool {
        exists|names: Seq<StreamId>, marks: Seq<Marks>, reports: Seq<ReportView>| #[trigger]
            self.caught_up(i, reset, names, marks, reports) && marks.first() == before
                && marks.last() == after && reports.last() == report
    }

    /// The storage failed while the sink at position `i`, found at `from`, was driven
    /// forward on `stream`: it had taken `states`, and its checkpoint stands at the
    /// last event that goes with them.
    pub open spec fn broke_off(
        &self,
        i: int,
        stream: Seq<char>,
        from: u64,
        states: Seq<Seq<char>>,
        before: Marks,
        after: Marks,
    ) -> bool {
        let pending = self.pending(stream, from);
        &&& before.may_find((self.dispatcher().sinks()[i].name(), stream), from)
        &&& self.took(i, stream, pending, states)
        &&& after == self.marks_after(i, stream, pending, from, states.len(), before)
    }

    /// The sink at position `i` was left on `stream` with the marks `after`: as it
    /// stood in `before`, or somewhere on the way from there.
    pub open spec fn left_off(
        &self,
        i: int,
        stream: Seq<char>,
        before: Marks,
        after: Marks,
    ) -> bool {
        ||| after == before
        ||| exists|from: u64, states: Seq<Seq<char>>| #[trigger]
            self.broke_off(i, stream, from, states, before, after)
    }

    /// The storage may fail with `error` while a sink is driven forward on `stream`.
    pub open spec fn stream_may_fail(&self, stream: Seq<char>, error: ErrorView) -> bool {
        &&& !self.reliable()
        &&& exists|at: SeqNo| #[trigger] self.state_may_fail(stream, at, error)
    }

    /// The storage failed with `error` while the sink at position `i` was brought up
    /// to date on `stream`, which it wants: before or after its checkpoint was
    /// reset, or on the way from there.
    pub open spec fn stream_broke_off(
        &self,
        i: int,
        stream: Seq<char>,
        reset: bool,
        before: Marks,
        after: Marks,
        error: ErrorView,
    ) -> bool {
        let key = (self.dispatcher().sinks()[i].name(), stream);
        &&& self.dispatcher().sinks()[i].wants(stream)
        &&& self.stream_may_fail(stream, error)
        &&& if reset {
            exists|fresh: Marks| #[trigger]
                was_reset(before, fresh, key) && self.left_off(i, stream, fresh, after)
        } else {
            self.left_off(i, stream, before, after)
        }
    }

    /// What a catch-up of the sink at position `i` did before the storage failed with
    /// `error`: all that it does on the first streams in `names`, and a part of what
    /// it does on the one after them. `marks` and `reports` are those before the
    /// first stream, between two, and after the last that was done.
    pub open spec fn got_to(
        &self,
        i: int,
        reset: bool,
        names: Seq<StreamId>,
        marks: Seq<Marks>,
        reports: Seq<ReportView>,
        after: Marks,
        error: ErrorView,
    ) -> bool {
        let done = marks.len() - 1;
        &&& lists_streams(self.log(), names)
        &&& 0 <= done < names.len()
        &&& reports.len() == marks.len()
        &&& reports.first() == empty_report()
        &&& forall|n: int|
            0 <= n < done ==> self.stream_step(
                i,
                #[trigger] names[n]@,
                reset,
                marks[n],
                marks[n + 1],
                reports[n],
                reports[n + 1],
            )
        &&& self.stream_broke_off(i, names[done]@, reset, marks[done], after, error)
    }

    /// A catch-up of the sink at position `i` that starts from the marks `before`
    /// may fail with `error` and leave `after`. Only the storage makes it fail.
    pub open spec fn breaks_off(
        &self,
        i: int,
        reset: bool,
        before: Marks,
        after: Marks,
        error: ErrorView,
    ) -> bool {
        &&& !self.reliable()
        &&& {
            ||| after == before && streams_may_fail(self.events().inner, error)
            ||| exists|names: Seq<StreamId>, marks: Seq<Marks>, reports: Seq<ReportView>| #[trigger]
                self.got_to(i, reset, names, marks, reports, after, error) && marks.first()
                    == before
        }
    }

    /// What a catch-up reports of the sink `sink_id`, and what it leaves behind.
    pub open spec fn catch_up_effect(
        &self,
        earlier: &Self,
        sink_id: Seq<char>,
        reset: bool,
        r: Result<CatchUpReport, StoreError>,
    ) -> bool {
        match earlier.dispatcher().first_named(sink_id) {
            None => r matches Ok(report) && report@ == empty_report() && self.marks()
                == earlier.marks(),
            Some(i) => others_kept(earlier.marks(), self.marks(), sink_id) && match r {
                Ok(report) => earlier.catches_up(
                    i,
                    reset,
                    earlier.marks(),
                    self.marks(),
                    report@,
                ),
                Err(e) => earlier.breaks_off(i, reset, earlier.marks(), self.marks(), e@),
            },
        }
    }

    /// Record that the sink did not take the event that is followed by `skipped`
    /// more.
    fn note_failure(
        report: &mut CatchUpReport,
        stream: &StreamId,
        sink_id: &str,
        message: String,
        skipped: u64,
    )
        requires
            old(report).failed < usize::MAX,
            old(report).skipped + skipped <= usize::MAX,
        ensures
            final(report)@ == report_failure(
                old(report)@,
                skipped as nat,
                CatchUpFailureView { stream: stream@, sink: sink_id@, message: message@ },
            ),
    {
        let ghost before = *report;
        report.failed = report.failed + 1;
        report.skipped = report.skipped + skipped as usize;
        let failure = CatchUpFailure {
            stream: stream.clone(),
            sink_id: sink_id.to_owned(),
            message,
        };
        let ghost view = failure@;
        report.failures.push(failure);
        proof {
            assert(report@ =~= report_failure(before@, skipped as nat, view));
        }
    }

    /// How far the catch-up of one stream has come: the sink at position `i`,
    /// found at `from`, took `states`.
    #[verifier::opaque]
    spec fn in_progress(
        &self,
        i: int,
        stream: Seq<char>,
        from: u64,
        states: Seq<Seq<char>>,
        marks: Marks,
        report: ReportView,
        reported: ReportView,
    ) -> bool {
        let pending = self.pending(stream, from);
        &&& self.took(i, stream, pending, states)
        &&& marks == self.marks_after(i, stream, pending, from, states.len(), self.marks())
        &&& reported == report_taken(report, states.len())
    }

    /// Nothing but the marks differs from `earlier`.
    spec fn same_but_marks(&self, earlier: &Self) -> bool {
        &&& self.wf()
        &&& self.events() == earlier.events()
        &&& self.cache() == earlier.cache()
        &&& self.gates() == earlier.gates()
        &&& self.config() == earlier.config()
        &&& self.dispatcher().same_but_marks(&earlier.dispatcher())
    }

    /// Where there is an event, nothing but a patch that does not apply keeps a
    /// store that works from its state.
    pub proof fn only_a_patch_is_in_the_way(&self, stream: Seq<char>, at: u64)
        requires
            self.wf(),
            has_event(self.events_of(stream), at),
        ensures
            self.answer_at(stream, at) matches Err(e) ==> e is Patch,
    {
        let shown = self.events_of(stream);
        shown_is_gap_free(self, stream);
        coordinates_are_contiguous(shown, at);
        match nearest_of(self.entries(stream), at) {
            Some((seq, state)) => {
                a_replay_fails_on_a_patch(state, between(shown, seq as int, at as int));
            },
            None => {
                a_replay_fails_on_a_patch(empty_text(), until(shown, at as int));
            },
        }
    }

    /// Hand one event to the sink at position `i`. What comes back is the state
    /// that the sink took, or nothing where it did not.
    fn deliver_event(
        &mut self,
        i: usize,
        stream: &StreamId,
        event: &Event,
        running: Option<serde_json::Value>,
        skipped: u64,
        report: &mut CatchUpReport,
    ) -> (r: Result<Option<serde_json::Value>, StoreError>)
        requires
            old(self).wf(),
            i < old(self).dispatcher().sinks().len(),
            has_event(old(self).events_of(stream@), event.seq.0),
            old(report).applied < usize::MAX,
            old(report).failed < usize::MAX,
            old(report).skipped + skipped <= usize::MAX,
        ensures
            final(self).wf(),
            final(self).events() == old(self).events(),
            final(self).cache() == old(self).cache(),
            final(self).gates() == old(self).gates(),
            final(self).config() == old(self).config(),
            final(self).dispatcher().same_but_marks(&old(self).dispatcher()),
            ({
                let sink = old(self).dispatcher().sinks()[i as int];
                let before = held_text(running);
                match r {
                    Ok(Some(state)) => {
                        &&& old(self).given_state(stream@, before, event@) == Some(json_text(state))
                        &&& sink.may_report(
                            DeliveryView {
                                stream: stream@,
                                seq: event.seq.0,
                                state: json_text(state),
                                event: event@,
                            },
                            Ok(()),
                        )
                        &&& final(self).marks() == old(self).marks().advanced(
                            (sink.name(), stream@),
                            event.seq.0,
                        )
                        &&& final(report)@ == report_taken(old(report)@, 1)
                    },
                    Ok(None) => {
                        &&& final(self).marks() == old(self).marks()
                        &&& exists|message: Seq<char>|
                            old(self).stop_reason(
                                i as int,
                                stream@,
                                before,
                                event@,
                                old(self).marks(),
                                message,
                            ) && final(report)@ == #[trigger] report_failure(
                                old(report)@,
                                skipped as nat,
                                CatchUpFailureView {
                                    stream: stream@,
                                    sink: sink.name(),
                                    message,
                                },
                            )
                    },
                    Err(e) => {
                        &&& final(self).marks() == old(self).marks()
                        &&& old(self).stream_may_fail(stream@, e@)
                    },
                }
            }),
    {
        let ghost before = *self;
        let ghost start = report@;
        let ghost held = held_text(running);
        let sink_id = self.dispatcher.sink(i).id().to_owned();
        let state = match running {
            Some(last) => match apply_patch(&last, &event.patch) {
                Ok(state) => state,
                Err(m) => {
                    let mut words = "patch apply seq=".to_owned();
                    words.append(decimal_text(event.seq.0).as_str());
                    words.append(": ");
                    words.append(m.as_str());
                    proof {
                        assert(before.stop_reason(
                            i as int,
                            stream@,
                            held,
                            event@,
                            before.marks(),
                            words@,
                        ));
                    }
                    Self::note_failure(report, stream, sink_id.as_str(), words, skipped);
                    return Ok(None);
                },
            },
            None => match self.state_at(stream, event.seq) {
                Ok(state) => state,
                Err(StoreError::Patch(m)) => {
                    let error = StoreError::Patch(m);
                    let words = error.message();
                    proof {
                        assert(words@ == error_words(ErrorView::Patch(m@)));
                        assert(before.lacks_state(stream@, event.seq.0, ErrorView::Patch(m@)));
                        assert(before.stop_reason(
                            i as int,
                            stream@,
                            held,
                            event@,
                            before.marks(),
                            words@,
                        ));
                    }
                    Self::note_failure(report, stream, sink_id.as_str(), words, skipped);
                    return Ok(None);
                },
                Err(e) => {
                    proof {
                        before.only_a_patch_is_in_the_way(stream@, event.seq.0);
                        assert(before.state_may_fail(stream@, event.seq, e@));
                    }
                    return Err(e);
                },
            },
        };
        match self.dispatcher.sink(i).commit(stream, event.seq, &state, event) {
            Ok(_) => {
                if self.dispatcher.checkpoint_advance(sink_id.as_str(), stream, event.seq) {
                    report.applied = report.applied + 1;
                    proof {
                        assert(report@ =~= report_taken(start, 1));
                    }
                    Ok(Some(state))
                } else {
                    let words = "checkpoint persistence failed".to_owned();
                    proof {
                        assert(before.stop_reason(
                            i as int,
                            stream@,
                            held,
                            event@,
                            before.marks(),
                            words@,
                        ));
                    }
                    Self::note_failure(report, stream, sink_id.as_str(), words, skipped);
                    Ok(None)
                }
            },
            Err(e) => {
                let words = e.message();
                proof {
                    assert(before.stop_reason(
                        i as int,
                        stream@,
                        held,
                        event@,
                        before.marks(),
                        words@,
                    ));
                }
                Self::note_failure(report, stream, sink_id.as_str(), words, skipped);
                Ok(None)
            },
        }
    }

    /// Nothing taken yet is the start of a catch-up.
    proof fn progress_starts(&self, i: int, stream: Seq<char>, from: u64, report: ReportView)
        ensures
            self.in_progress(
                i,
                stream,
                from,
                Seq::empty(),
                self.marks().remembering((self.dispatcher().sinks()[i].name(), stream), from),
                report,
                report,
            ),
    {
        reveal(Store::in_progress);
        assert(report =~= report_taken(report, 0));
    }

    /// One more event taken keeps the catch-up in progress.
    proof fn progress_by_one(
        &self,
        middle: &Self,
        i: int,
        stream: Seq<char>,
        from: u64,
        states: Seq<Seq<char>>,
        text: Seq<char>,
        report: ReportView,
        reported: ReportView,
    )
        requires
            self.in_progress(i, stream, from, states, middle.marks(), report, reported),
            middle.same_but_marks(self),
            0 <= i < self.dispatcher().sinks().len(),
            states.len() < self.pending(stream, from).len(),
            ({
                let event = self.pending(stream, from)[states.len() as int];
                &&& middle.given_state(stream, Self::running(states, states.len() as int), event)
                    == Some(text)
                &&& self.dispatcher().sinks()[i].may_report(
                    DeliveryView { stream, seq: event.seq, state: text, event },
                    Ok(()),
                )
            }),
        ensures
            self.in_progress(
                i,
                stream,
                from,
                states.push(text),
                middle.marks().advanced(
                    (self.dispatcher().sinks()[i].name(), stream),
                    self.pending(stream, from)[states.len() as int].seq,
                ),
                report,
                report_taken(reported, 1),
            ),
    {
        reveal(Store::in_progress);
        let pending = self.pending(stream, from);
        let more = states.push(text);
        assert forall|m: int| 0 <= m < more.len() implies {
            &&& self.given_state(stream, Self::running(more, m), pending[m]) == Some(
                #[trigger] more[m],
            )
            &&& self.dispatcher.sinks()[i].may_report(
                DeliveryView { stream, seq: pending[m].seq, state: more[m], event: pending[m] },
                Ok(()),
            )
        } by {
            if m < states.len() {
                assert(more[m] == states[m]);
            }
            assert(Self::running(more, m) == Self::running(states, m));
        }
        assert(middle.marks().advanced(
            (self.dispatcher.sinks()[i].name(), stream),
            pending[states.len() as int].seq,
        ) =~= self.marks_after(i, stream, pending, from, more.len(), self.marks()));
    }

    /// A catch-up that stops before an event is a run.
    proof fn progress_stops(
        &self,
        middle: &Self,
        i: int,
        stream: Seq<char>,
        from: u64,
        states: Seq<Seq<char>>,
        message: Seq<char>,
        report: ReportView,
        reported: ReportView,
    )
        requires
            self.in_progress(i, stream, from, states, middle.marks(), report, reported),
            middle.same_but_marks(self),
            0 <= i < self.dispatcher().sinks().len(),
            states.len() < self.pending(stream, from).len(),
            self.marks().may_find((self.dispatcher().sinks()[i].name(), stream), from),
            middle.stop_reason(
                i,
                stream,
                Self::running(states, states.len() as int),
                self.pending(stream, from)[states.len() as int],
                middle.marks(),
                message,
            ),
        ensures
            self.is_run(
                i,
                stream,
                (Run { from, states, stopped: Some(message) }),
                self.marks(),
                middle.marks(),
                report,
                report_failure(
                    reported,
                    (self.pending(stream, from).len() - states.len() - 1) as nat,
                    CatchUpFailureView {
                        stream,
                        sink: self.dispatcher().sinks()[i].name(),
                        message,
                    },
                ),
            ),
    {
        reveal(Store::in_progress);
    }

    /// A catch-up that took everything is a run.
    proof fn progress_ends(
        &self,
        i: int,
        stream: Seq<char>,
        from: u64,
        states: Seq<Seq<char>>,
        marks: Marks,
        report: ReportView,
        reported: ReportView,
    )
        requires
            self.in_progress(i, stream, from, states, marks, report, reported),
            states.len() == self.pending(stream, from).len(),
            self.marks().may_find((self.dispatcher().sinks()[i].name(), stream), from),
        ensures
            self.is_run(
                i,
                stream,
                (Run { from, states, stopped: None }),
                self.marks(),
                marks,
                report,
                reported,
            ),
    {
        reveal(Store::in_progress);
    }

    /// Where the events that a sink still has to take stand in the stream.
    proof fn pending_positions(&self, stream: Seq<char>, from: u64, n: int)
        requires
            self.wf(),
            self.log().known(stream),
            0 <= n < self.pending(stream, from).len(),
        ensures
            ({
                let shown = self.events_of(stream);
                let pending = self.pending(stream, from);
                let event = pending[n];
                &&& event.seq > from
                &&& event.seq >= 1
                &&& has_event(shown, event.seq)
                &&& event.seq + (pending.len() - n - 1) == shown.last().seq
                &&& since(shown, event.seq + 1) == pending.skip(n + 1)
            }),
    {
        shown_is_gap_free(self, stream);
        let shown = self.events_of(stream);
        let pending = self.pending(stream, from);
        let origin = count_before(shown, from + 1);
        assert(pending[n] == shown[origin + n]);
        assert(shown[origin + n].seq == shown[0].seq + origin + n);
        assert(shown[shown.len() - 1].seq == shown[0].seq + shown.len() - 1);
        assert(count_before(shown, pending[n].seq + 1) == origin + n + 1);
        assert(since(shown, pending[n].seq + 1) =~= pending.skip(n + 1));
    }

    /// What comes after a coordinate comes later.
    proof fn next_comes_later(&self, stream: Seq<char>, at: u64)
        requires
            self.wf(),
            self.log().known(stream),
            since(self.events_of(stream), at + 1).len() > 0,
        ensures
            since(self.events_of(stream), at + 1)[0].seq > at,
    {
        shown_is_gap_free(self, stream);
        let shown = self.events_of(stream);
        let c = count_before(shown, at + 1);
        assert(shown[c].seq == shown[0].seq + c);
    }

    /// A catch-up in progress can break off.
    proof fn progress_breaks_off(
        &self,
        i: int,
        stream: Seq<char>,
        from: u64,
        states: Seq<Seq<char>>,
        marks: Marks,
        report: ReportView,
        reported: ReportView,
    )
        requires
            self.in_progress(i, stream, from, states, marks, report, reported),
            self.marks().may_find((self.dispatcher().sinks()[i].name(), stream), from),
        ensures
            self.broke_off(i, stream, from, states, self.marks(), marks),
    {
        reveal(Store::in_progress);
    }

    /// Where a catch-up broke off depends on nothing that a mark can change.
    proof fn same_break(
        &self,
        other: &Self,
        i: int,
        stream: Seq<char>,
        from: u64,
        states: Seq<Seq<char>>,
        before: Marks,
        after: Marks,
    )
        requires
            other.broke_off(i, stream, from, states, before, after),
            self.only_marks_moved(other),
        ensures
            self.broke_off(i, stream, from, states, before, after),
    {
        let pending = self.pending(stream, from);
        assert forall|n: int| 0 <= n < states.len() implies {
            &&& self.given_state(stream, Self::running(states, n), pending[n]) == Some(
                #[trigger] states[n],
            )
            &&& self.dispatcher.sinks()[i].may_report(
                DeliveryView {
                    stream,
                    seq: pending[n].seq,
                    state: states[n],
                    event: pending[n],
                },
                Ok(()),
            )
        } by {
            assert(other.given_state(stream, Self::running(states, n), pending[n]) == Some(
                states[n],
            ));
        }
    }

    /// How a stream broke off depends on nothing that a mark can change.
    proof fn same_stream_break(
        &self,
        other: &Self,
        i: int,
        stream: Seq<char>,
        reset: bool,
        before: Marks,
        after: Marks,
        error: ErrorView,
    )
        requires
            other.stream_broke_off(i, stream, reset, before, after, error),
            self.only_marks_moved(other),
        ensures
            self.stream_broke_off(i, stream, reset, before, after, error),
    {
        let key = (self.dispatcher.sinks()[i].name(), stream);
        let at = choose|at: SeqNo| #[trigger] other.state_may_fail(stream, at, error);
        assert(self.state_may_fail(stream, at, error));
        let fresh = if reset {
            choose|fresh: Marks| #[trigger]
                was_reset(before, fresh, key) && other.left_off(i, stream, fresh, after)
        } else {
            before
        };
        if after != fresh {
            let (from, states) = choose|from: u64, states: Seq<Seq<char>>| #[trigger]
                other.broke_off(i, stream, from, states, fresh, after);
            self.same_break(other, i, stream, from, states, fresh, after);
        }
        assert(self.left_off(i, stream, fresh, after));
    }

    /// Drive the sink at position `i` forward on `stream` until it stands at the
    /// head or does not take an event.
    fn catch_up_stream(
        &mut self,
        i: usize,
        stream: &StreamId,
        head: SeqNo,
        report: &mut CatchUpReport,
    ) -> (r: Result<(), StoreError>)
        requires
            old(self).wf(),
            i < old(self).dispatcher().sinks().len(),
            old(self).dispatcher().sinks()[i as int].wants(stream@),
            old(self).log().head(stream@) == Some(head.0),
            old(report).applied + head.0 <= usize::MAX,
            old(report).failed + head.0 <= usize::MAX,
            old(report).skipped + head.0 <= usize::MAX,
        ensures
            final(self).wf(),
            final(self).events() == old(self).events(),
            final(self).cache() == old(self).cache(),
            final(self).gates() == old(self).gates(),
            final(self).config() == old(self).config(),
            final(self).dispatcher().same_but_marks(&old(self).dispatcher()),
            others_kept(
                old(self).marks(),
                final(self).marks(),
                old(self).dispatcher().sinks()[i as int].name(),
            ),
            match r {
                Ok(_) => {
                    &&& exists|run: Run| #[trigger]
                        old(self).is_run(
                            i as int,
                            stream@,
                            run,
                            old(self).marks(),
                            final(self).marks(),
                            old(report)@,
                            final(report)@,
                        )
                    &&& final(report).applied + final(report).failed + final(report).skipped
                        <= old(report).applied + old(report).failed + old(report).skipped + head.0
                },
                Err(e) => {
                    &&& old(self).stream_may_fail(stream@, e@)
                    &&& exists|from: u64, states: Seq<Seq<char>>| #[trigger]
                        old(self).broke_off(
                            i as int,
                            stream@,
                            from,
                            states,
                            old(self).marks(),
                            final(self).marks(),
                        )
                },
            },
    {
        let ghost before = *self;
        let ghost start = report@;
        let ghost shown = self.events_of(stream@);
        proof {
            shown_is_gap_free(self, stream@);
            assert(shown[shown.len() - 1] == shown.last());
        }
        let sink_id = self.dispatcher.sink(i).id().to_owned();
        let mut cursor = self.dispatcher.checkpoint_get(sink_id.as_str(), stream);
        let ghost from = cursor.0;
        let ghost pending = before.pending(stream@, from);
        let ghost mut states: Seq<Seq<char>> = Seq::empty();
        let mut running: Option<serde_json::Value> = None;
        proof {
            before.progress_starts(i as int, stream@, from, start);
            kept_by_itself(before.marks(), sink_id@);
            own_marks_only(before.marks(), before.marks(), sink_id@, stream@, from);
            assert(pending.skip(0) =~= pending);
        }
        while cursor.0 < head.0
            invariant
                before == *old(self),
                before.wf(),
                before.log().known(stream@),
                i < before.dispatcher.sinks().len(),
                before.dispatcher.sinks()[i as int].wants(stream@),
                before.marks().may_find((before.dispatcher.sinks()[i as int].name(), stream@), from),
                shown == before.events_of(stream@),
                shown.last().seq == head.0,
                head_of(shown) == Some(head.0),
                gap_free(shown),
                pending == before.pending(stream@, from),
                pending.len() <= head.0,
                self.same_but_marks(&before),
                others_kept(
                    before.marks(),
                    self.marks(),
                    before.dispatcher.sinks()[i as int].name(),
                ),
                before.in_progress(
                    i as int,
                    stream@,
                    from,
                    states,
                    self.marks(),
                    start,
                    report@,
                ),
                report.applied == start.applied + states.len(),
                report.failed == start.failed,
                report.skipped == start.skipped,
                start == old(report)@,
                start.applied + head.0 <= usize::MAX,
                start.failed + head.0 <= usize::MAX,
                start.skipped + head.0 <= usize::MAX,
                states.len() <= pending.len(),
                since(shown, cursor.0 + 1) == pending.skip(states.len() as int),
                held_text(running) == Self::running(states, states.len() as int),
            decreases head.0 - cursor.0,
        {
            let page = match self.events.read(stream, cursor.next(), 32) {
                Ok(page) => page,
                Err(e) => {
                    proof {
                        before.progress_breaks_off(
                            i as int,
                            stream@,
                            from,
                            states,
                            self.marks(),
                            start,
                            report@,
                        );
                        assert(before.state_may_fail(stream@, cursor, e@));
                    }
                    return Err(e);
                },
            };
            let ghost offset = states.len() as int;
            let ghost at_start = cursor.0;
            proof {
                assert(event_views(page@) == at_most(pending.skip(offset), 32));
                assert(event_views(page@).len() == page@.len());
                assert(since(shown, cursor.0 + 1).len() > 0) by {
                    assert(shown[shown.len() - 1].seq == shown[0].seq + shown.len() - 1);
                }
            }
            if page.len() == 0 {
                return Ok(());
            }
            let mut n: usize = 0;
            while n < page.len()
                invariant
                    before == *old(self),
                    before.wf(),
                    before.log().known(stream@),
                    i < before.dispatcher.sinks().len(),
                    before.dispatcher.sinks()[i as int].wants(stream@),
                    before.marks().may_find(
                        (before.dispatcher.sinks()[i as int].name(), stream@),
                        from,
                    ),
                    shown == before.events_of(stream@),
                    shown.last().seq == head.0,
                    pending == before.pending(stream@, from),
                    pending.len() <= head.0,
                    self.same_but_marks(&before),
                    others_kept(
                        before.marks(),
                        self.marks(),
                        before.dispatcher.sinks()[i as int].name(),
                    ),
                    before.in_progress(
                        i as int,
                        stream@,
                        from,
                        states,
                        self.marks(),
                        start,
                        report@,
                    ),
                    report.applied == start.applied + states.len(),
                    report.failed == start.failed,
                    report.skipped == start.skipped,
                    start == old(report)@,
                    start.applied + head.0 <= usize::MAX,
                    start.failed + head.0 <= usize::MAX,
                    start.skipped + head.0 <= usize::MAX,
                    n <= page@.len(),
                    0 <= offset,
                    offset + page@.len() <= pending.len(),
                    states.len() == offset + n,
                    event_views(page@) == at_most(pending.skip(offset), 32),
                    event_views(page@).len() == page@.len(),
                    since(shown, cursor.0 + 1) == pending.skip(states.len() as int),
                    n > 0 ==> at_start < cursor.0 <= head.0,
                    n == 0 ==> at_start == cursor.0,
                    at_start < head.0,
                    held_text(running) == Self::running(states, states.len() as int),
                decreases page@.len() - n,
            {
                let ghost k = states.len() as int;
                let ghost middle = *self;
                let ghost reported = report@;
                proof {
                    assert(event_views(page@)[n as int] == page@[n as int]@);
                    assert(page@[n as int]@ == pending.skip(offset)[n as int]);
                    assert(page@[n as int]@ == pending[k]);
                    before.pending_positions(stream@, from, k);
                    before.next_comes_later(stream@, cursor.0);
                    assert(since(shown, cursor.0 + 1)[0] == pending[k]);
                }
                let skipped: u64 = head.0 - page[n].seq.0;
                match self.deliver_event(i, stream, &page[n], running, skipped, report) {
                    Ok(Some(state)) => {
                        proof {
                            own_marks_only(
                                before.marks(),
                                middle.marks(),
                                before.dispatcher.sinks()[i as int].name(),
                                stream@,
                                pending[k].seq,
                            );
                            before.progress_by_one(
                                &middle,
                                i as int,
                                stream@,
                                from,
                                states,
                                json_text(state),
                                start,
                                reported,
                            );
                            states = states.push(json_text(state));
                        }
                        cursor = page[n].seq;
                        running = Some(state);
                    },
                    Ok(None) => {
                        proof {
                            let message = choose|message: Seq<char>|
                                middle.stop_reason(
                                    i as int,
                                    stream@,
                                    Self::running(states, k),
                                    pending[k],
                                    middle.marks(),
                                    message,
                                ) && report@ == #[trigger] report_failure(
                                    reported,
                                    skipped as nat,
                                    CatchUpFailureView {
                                        stream: stream@,
                                        sink: before.dispatcher.sinks()[i as int].name(),
                                        message,
                                    },
                                );
                            before.progress_stops(
                                &middle,
                                i as int,
                                stream@,
                                from,
                                states,
                                message,
                                start,
                                reported,
                            );
                        }
                        return Ok(());
                    },
                    Err(e) => {
                        proof {
                            before.progress_breaks_off(
                                i as int,
                                stream@,
                                from,
                                states,
                                middle.marks(),
                                start,
                                reported,
                            );
                            let at = choose|at: SeqNo| #[trigger]
                                middle.state_may_fail(stream@, at, e@);
                            assert(before.state_may_fail(stream@, at, e@));
                        }
                        return Err(e);
                    },
                }
                n = n + 1;
            }
        }
        proof {
            assert(since(shown, cursor.0 + 1).len() == 0) by {
                assert(shown[shown.len() - 1].seq == shown[0].seq + shown.len() - 1);
            }
            assert(states.len() == pending.len());
            before.progress_ends(
                i as int,
                stream@,
                from,
                states,
                self.marks(),
                start,
                report@,
            );
        }
        Ok(())
    }

    /// Drive the sink at position `i` forward on `stream`, if it wants it: from its
    /// checkpoint or, after a reset, from the beginning.
    fn catch_up_one(
        &mut self,
        i: usize,
        stream: &StreamId,
        reset: bool,
        report: &mut CatchUpReport,
    ) -> (r: Result<(), StoreError>)
        requires
            old(self).wf(),
            i < old(self).dispatcher().sinks().len(),
            old(self).log().known(stream@),
            old(report).applied + old(self).log().head(stream@)->0 <= usize::MAX,
            old(report).failed + old(self).log().head(stream@)->0 <= usize::MAX,
            old(report).skipped + old(self).log().head(stream@)->0 <= usize::MAX,
        ensures
            final(self).same_but_marks(old(self)),
            others_kept(
                old(self).marks(),
                final(self).marks(),
                old(self).dispatcher().sinks()[i as int].name(),
            ),
            match r {
                Ok(_) => {
                    &&& old(self).stream_step(
                        i as int,
                        stream@,
                        reset,
                        old(self).marks(),
                        final(self).marks(),
                        old(report)@,
                        final(report)@,
                    )
                    &&& final(report).applied + final(report).failed + final(report).skipped
                        <= old(report).applied + old(report).failed + old(report).skipped + old(
                        self,
                    ).log().head(stream@)->0
                },
                Err(e) => old(self).stream_broke_off(
                    i as int,
                    stream@,
                    reset,
                    old(self).marks(),
                    final(self).marks(),
                    e@,
                ),
            },
    {
        let ghost start = *self;
        let ghost sink = self.dispatcher.sinks()[i as int].name();
        proof {
            kept_by_itself(start.marks(), sink);
        }
        if !self.dispatcher.sink(i).accepts(stream) {
            return Ok(());
        }
        if reset {
            let sink_id = self.dispatcher.sink(i).id().to_owned();
            self.dispatcher.checkpoint_reset(sink_id.as_str(), stream);
            proof {
                assert(was_reset(start.marks(), self.marks(), (sink, stream@)));
                own_marks_only(start.marks(), start.marks(), sink, stream@, 0);
            }
        }
        let ghost fresh = *self;
        let ghost reported = report@;
        let head = match self.events.inner.head(stream) {
            Ok(Some(head)) => head,
            Ok(None) => {
                return Ok(());
            },
            Err(e) => {
                proof {
                    assert(start.state_may_fail(stream@, SeqNo(0), e@));
                    if !reset {
                        assert(fresh.marks() == start.marks());
                    }
                }
                return Err(e);
            },
        };
        match self.catch_up_stream(i, stream, head, report) {
            Ok(_) => {
                proof {
                    kept_twice(start.marks(), fresh.marks(), self.marks(), sink);
                    let run = choose|run: Run| #[trigger]
                        fresh.is_run(
                            i as int,
                            stream@,
                            run,
                            fresh.marks(),
                            self.marks(),
                            reported,
                            report@,
                        );
                    start.same_run(
                        &fresh,
                        i as int,
                        stream@,
                        run,
                        fresh.marks(),
                        self.marks(),
                        reported,
                        report@,
                    );
                }
                Ok(())
            },
            Err(e) => {
                proof {
                    kept_twice(start.marks(), fresh.marks(), self.marks(), sink);
                    let (from, states) = choose|from: u64, states: Seq<Seq<char>>| #[trigger]
                        fresh.broke_off(
                            i as int,
                            stream@,
                            from,
                            states,
                            fresh.marks(),
                            self.marks(),
                        );
                    start.same_break(
                        &fresh,
                        i as int,
                        stream@,
                        from,
                        states,
                        fresh.marks(),
                        self.marks(),
                    );
                    let at = choose|at: SeqNo| #[trigger] fresh.state_may_fail(stream@, at, e@);
                    assert(start.state_may_fail(stream@, at, e@));
                }
                Err(e)
            },
        }
    }

    /// A step depends on nothing that a mark can change.
    proof fn same_step(
        &self,
        other: &Self,
        i: int,
        stream: Seq<char>,
        reset: bool,
        before: Marks,
        after: Marks,
        report: ReportView,
        reported: ReportView,
    )
        requires
            other.stream_step(i, stream, reset, before, after, report, reported),
            self.only_marks_moved(other),
        ensures
            self.stream_step(i, stream, reset, before, after, report, reported),
    {
        if !self.dispatcher.sinks()[i].wants(stream) {
        } else if reset {
            let (fresh, run) = choose|fresh: Marks, run: Run| #[trigger]
                other.is_run(i, stream, run, fresh, after, report, reported) && was_reset(
                    before,
                    fresh,
                    (other.dispatcher.sinks()[i].name(), stream),
                );
            self.same_run(other, i, stream, run, fresh, after, report, reported);
        } else {
            let run = choose|run: Run| #[trigger]
                other.is_run(i, stream, run, before, after, report, reported);
            self.same_run(other, i, stream, run, before, after, report, reported);
        }
    }

    /// Drive the sink `sink_id` forward on every stream that it wants, from its
    /// checkpoint or, after a reset, from the beginning.
    fn catch_up_inner(&mut self, sink_id: &str, reset: bool) -> (r: Result<
        CatchUpReport,
        StoreError,
    >)
        requires
            old(self).wf(),
            countable(old(self).log()),
        ensures
            final(self).same_but_marks(old(self)),
            final(self).catch_up_effect(old(self), sink_id@, reset, r),
    {
        let ghost before = *self;
        let i = match self.dispatcher.find_sink(sink_id) {
            Some(i) => i,
            None => {
                return Ok(CatchUpReport::empty());
            },
        };
        proof {
            kept_by_itself(before.marks(), sink_id@);
        }
        let names = match self.events.inner.streams() {
            Ok(names) => names,
            Err(e) => {
                return Err(e);
            },
        };
        let ghost views = names@.map_values(|name: StreamId| name@);
        let mut report = CatchUpReport::empty();
        let ghost mut marks: Seq<Marks> = seq![self.marks()];
        let ghost mut reports: Seq<ReportView> = seq![report@];
        proof {
            assert(views.take(0) =~= Seq::<Seq<char>>::empty());
            assert(heads(before.log(), views.take(0)) == 0);
        }
        let mut n: usize = 0;
        while n < names.len()
            invariant
                before == *old(self),
                before.wf(),
                countable(before.log()),
                i < before.dispatcher.sinks().len(),
                before.dispatcher.sinks()[i as int].name() == sink_id@,
                before.dispatcher.first_named(sink_id@) == Some(i as int),
                lists_streams(before.log(), names@),
                views == names@.map_values(|name: StreamId| name@),
                n <= names@.len(),
                self.same_but_marks(&before),
                others_kept(before.marks(), self.marks(), sink_id@),
                marks.len() == n + 1,
                reports.len() == n + 1,
                marks.first() == before.marks(),
                marks.last() == self.marks(),
                reports.first() == empty_report(),
                reports.last() == report@,
                report.applied + report.failed + report.skipped <= heads(
                    before.log(),
                    views.take(n as int),
                ),
                forall|k: int|
                    0 <= k < n ==> before.stream_step(
                        i as int,
                        #[trigger] names@[k]@,
                        reset,
                        marks[k],
                        marks[k + 1],
                        reports[k],
                        reports[k + 1],
                    ),
            decreases names@.len() - n,
        {
            let ghost start = *self;
            let ghost reported = report@;
            proof {
                assert(before.log().known(names@[n as int]@));
                let more = views.take(n as int + 1);
                assert(more.drop_last() =~= views.take(n as int));
                assert(more.last() == names@[n as int]@);
                assert(more.no_duplicates()) by {
                    assert forall|a: int, b: int|
                        0 <= a < b < more.len() implies more[a] != more[b] by {
                        assert(names@[a]@ != names@[b]@);
                    }
                }
                assert(heads(before.log(), more) <= usize::MAX);
            }
            match self.catch_up_one(i, &names[n], reset, &mut report) {
                Ok(_) => {},
                Err(e) => {
                    proof {
                        kept_twice(before.marks(), start.marks(), self.marks(), sink_id@);
                        before.same_stream_break(
                            &start,
                            i as int,
                            names@[n as int]@,
                            reset,
                            start.marks(),
                            self.marks(),
                            e@,
                        );
                        assert(marks[n as int] == start.marks());
                        assert(before.got_to(
                            i as int,
                            reset,
                            names@,
                            marks,
                            reports,
                            self.marks(),
                            e@,
                        ));
                    }
                    return Err(e);
                },
            }
            proof {
                kept_twice(before.marks(), start.marks(), self.marks(), sink_id@);
                before.same_step(
                    &start,
                    i as int,
                    names@[n as int]@,
                    reset,
                    start.marks(),
                    self.marks(),
                    reported,
                    report@,
                );
                let (old_marks, old_reports) = (marks, reports);
                marks = marks.push(self.marks());
                reports = reports.push(report@);
                assert forall|k: int| 0 <= k < n + 1 implies before.stream_step(
                    i as int,
                    #[trigger] names@[k]@,
                    reset,
                    marks[k],
                    marks[k + 1],
                    reports[k],
                    reports[k + 1],
                ) by {
                    if k < n {
                        assert(marks[k] == old_marks[k] && marks[k + 1] == old_marks[k + 1]);
                        assert(reports[k] == old_reports[k] && reports[k + 1] == old_reports[k + 1]);
                    }
                }
            }
            n = n + 1;
        }
        proof {
            assert(before.caught_up(i as int, reset, names@, marks, reports));
            assert(before.catches_up(i as int, reset, before.marks(), self.marks(), report@));
        }
        Ok(report)
    }

    /// A run depends on nothing that a mark can change.
    proof fn same_run(
        &self,
        other: &Self,
        i: int,
        stream: Seq<char>,
        run: Run,
        before: Marks,
        after: Marks,
        report: ReportView,
        reported: ReportView,
    )
        requires
            other.is_run(i, stream, run, before, after, report, reported),
            self.only_marks_moved(other),
        ensures
            self.is_run(i, stream, run, before, after, report, reported),
    {
        let pending = self.pending(stream, run.from);
        assert forall|n: int| 0 <= n < run.states.len() implies {
            &&& self.given_state(stream, Self::running(run.states, n), pending[n]) == Some(
                #[trigger] run.states[n],
            )
            &&& self.dispatcher.sinks()[i].may_report(
                DeliveryView {
                    stream,
                    seq: pending[n].seq,
                    state: run.states[n],
                    event: pending[n],
                },
                Ok(()),
            )
        } by {
            assert(other.given_state(stream, Self::running(run.states, n), pending[n]) == Some(
                run.states[n],
            ));
        }
    }

    /// Whether a catch-up of `sink_id` has to start from the beginning: the sink
    /// keeps its state in memory, and was not caught up in this process yet.
    pub open spec fn escalates(&self, sink_id: Seq<char>) -> bool {
        &&& self.dispatcher().first_named(sink_id) matches Some(i)
            && self.dispatcher().sinks()[i].starts_empty()
        &&& !self.dispatcher().caught_up().contains(sink_id)
    }

    /// Sinks, settings, log and cache are as they were in `earlier`.
    pub open spec fn only_marks_moved(&self, earlier: &Self) -> bool {
        &&& self.events() == earlier.events()
        &&& self.cache() == earlier.cache()
        &&& self.gates() == earlier.gates()
        &&& self.config() == earlier.config()
        &&& self.dispatcher().sinks() == earlier.dispatcher().sinks()
        &&& self.dispatcher().observer() == earlier.dispatcher().observer()
    }

    /// The ids that count as caught up once a catch-up of `sink_id` returned `r`:
    /// one more, if there is a sink of that id.
    pub open spec fn caught_up_after(
        &self,
        sink_id: Seq<char>,
        r: Result<CatchUpReport, StoreError>,
    ) -> Set<Seq<char>> {
        if r is Ok && self.dispatcher().first_named(sink_id) is Some {
            self.dispatcher().caught_up().insert(sink_id)
        } else {
            self.dispatcher().caught_up()
        }
    }

    /// Drive the sink `sink_id` forward from its checkpoints to the heads. The
    /// first catch-up in a process of a sink that keeps its state in memory
    /// starts from the beginning. A stream on which an event cannot be handed over
    /// goes into the report and stops no other; only the storage makes a catch-up
    /// fail, and its checkpoints then stand where the sink got to.
    pub fn catch_up(&mut self, sink_id: &str) -> (r: Result<CatchUpReport, StoreError>)
        requires
            old(self).wf(),
            countable(old(self).log()),
        ensures
            final(self).wf(),
            final(self).only_marks_moved(old(self)),
            final(self).dispatcher().caught_up() == old(self).caught_up_after(sink_id@, r),
            final(self).catch_up_effect(old(self), sink_id@, old(self).escalates(sink_id@), r),
    {
        let reset = match self.dispatcher.find_sink(sink_id) {
            Some(i) => self.dispatcher.sink(i).requires_rebuild_on_attach()
                && !self.dispatcher.has_been_rebuilt_this_process(sink_id),
            None => false,
        };
        match self.catch_up_inner(sink_id, reset) {
            Ok(report) => {
                self.dispatcher.mark_rebuilt_this_process(sink_id);
                Ok(report)
            },
            Err(e) => Err(e),
        }
    }

    /// Reset the checkpoints of the sink `sink_id`, and drive it forward from the
    /// beginning.
    pub fn rebuild(&mut self, sink_id: &str) -> (r: Result<CatchUpReport, StoreError>)
        requires
            old(self).wf(),
            countable(old(self).log()),
        ensures
            final(self).wf(),
            final(self).only_marks_moved(old(self)),
            final(self).dispatcher().caught_up() == old(self).caught_up_after(sink_id@, r),
            final(self).catch_up_effect(old(self), sink_id@, true, r),
    {
        match self.catch_up_inner(sink_id, true) {
            Ok(report) => {
                self.dispatcher.mark_rebuilt_this_process(sink_id);
                Ok(report)
            },
            Err(e) => Err(e),
        }
    }

    /// How a catch-up broke off depends on nothing that a mark can change.
    proof fn same_break_off(
        &self,
        other: &Self,
        i: int,
        reset: bool,
        before: Marks,
        after: Marks,
        error: ErrorView,
    )
        requires
            other.breaks_off(i, reset, before, after, error),
            self.only_marks_moved(other),
        ensures
            self.breaks_off(i, reset, before, after, error),
    {
        if exists|names: Seq<StreamId>, marks: Seq<Marks>, reports: Seq<ReportView>| #[trigger]
            other.got_to(i, reset, names, marks, reports, after, error) && marks.first() == before {
            let (names, marks, reports) = choose|
                names: Seq<StreamId>,
                marks: Seq<Marks>,
                reports: Seq<ReportView>,
            | #[trigger]
                other.got_to(i, reset, names, marks, reports, after, error) && marks.first()
                    == before;
            let done = marks.len() - 1;
            assert forall|n: int| 0 <= n < done implies self.stream_step(
                i,
                #[trigger] names[n]@,
                reset,
                marks[n],
                marks[n + 1],
                reports[n],
                reports[n + 1],
            ) by {
                self.same_step(
                    other,
                    i,
                    names[n]@,
                    reset,
                    marks[n],
                    marks[n + 1],
                    reports[n],
                    reports[n + 1],
                );
            }
            self.same_stream_break(other, i, names[done]@, reset, marks[done], after, error);
            assert(self.got_to(i, reset, names, marks, reports, after, error));
        }
    }

    /// Register `sink` and bring it up to date, as far as its streams allow. Its id
    /// has to be new.
    pub fn attach_sink(&mut self, sink: Arc<dyn ProjectionSink>) -> (r: Result<(), StoreError>)
        requires
            old(self).wf(),
            countable(old(self).log()),
        ensures
            final(self).wf(),
            final(self).events() == old(self).events(),
            final(self).cache() == old(self).cache(),
            final(self).gates() == old(self).gates(),
            final(self).config() == old(self).config(),
            final(self).dispatcher().observer() == old(self).dispatcher().observer(),
            match old(self).dispatcher().first_named(sink.name()) {
                Some(_) => {
                    &&& r matches Err(e) && e@ == ErrorView::SinkAlreadyAttached(sink.name())
                    &&& final(self).dispatcher().sinks() == old(self).dispatcher().sinks()
                    &&& final(self).dispatcher().caught_up() == old(self).dispatcher().caught_up()
                    &&& final(self).marks() == old(self).marks()
                },
                None => {
                    // It comes last, and is caught up as it stands there; from the
                    // beginning, if it keeps its state in memory.
                    &&& final(self).dispatcher().sinks().len() == old(self).dispatcher().sinks().len() + 1
                    &&& final(self).dispatcher().sinks().last() == sink
                    &&& final(self).dispatcher().sinks().drop_last() == old(self).dispatcher().sinks()
                    &&& others_kept(old(self).marks(), final(self).marks(), sink.name())
                    &&& match r {
                        Ok(_) => {
                            &&& exists|report: ReportView| #[trigger]
                                final(self).catches_up(
                                    old(self).dispatcher().sinks().len() as int,
                                    sink.starts_empty(),
                                    old(self).marks(),
                                    final(self).marks(),
                                    report,
                                )
                            &&& final(self).dispatcher().caught_up() == old(
                                self,
                            ).dispatcher().caught_up().insert(sink.name())
                        },
                        Err(e) => {
                            &&& final(self).breaks_off(
                                old(self).dispatcher().sinks().len() as int,
                                sink.starts_empty(),
                                old(self).marks(),
                                final(self).marks(),
                                e@,
                            )
                            &&& final(self).dispatcher().caught_up() == old(
                                self,
                            ).dispatcher().caught_up()
                        },
                    }
                },
            },
    {
        let ghost before = *self;
        let ghost last = sink;
        let sink_id = sink.id().to_owned();
        let packed = (sink,);
        match self.dispatcher.attach_packed(packed) {
            Ok(_) => {},
            Err(e) => {
                return Err(e);
            },
        }
        let ghost attached = *self;
        proof {
            let n = before.dispatcher.sinks().len() as int;
            let sinks = self.dispatcher.sinks();
            assert(sinks[n].name() == sink_id@);
            assert(sinks.drop_last() == before.dispatcher.sinks());
            assert forall|j: int| 0 <= j < n implies (#[trigger] sinks[j]).name() != sink_id@ by {
                assert(sinks[j] == sinks.drop_last()[j]);
                assert(before.dispatcher.sinks()[j].name() != sink_id@);
            }
            assert(self.dispatcher.first_named(sink_id@) == Some(n));
            if self.dispatcher.caught_up().contains(sink_id@) {
                before.dispatcher.caught_up_ids_are_names(sink_id@);
            }
            assert(self.escalates(sink_id@) == last.starts_empty());
        }
        match self.catch_up(sink_id.as_str()) {
            Ok(report) => {
                proof {
                    let n = before.dispatcher.sinks().len() as int;
                    let (names, marks, reports) = choose|
                        names: Seq<StreamId>,
                        marks: Seq<Marks>,
                        reports: Seq<ReportView>,
                    | #[trigger]
                        attached.caught_up(n, attached.escalates(sink_id@), names, marks, reports)
                            && marks.first() == attached.marks() && marks.last() == self.marks()
                            && reports.last() == report@;
                    assert forall|k: int| 0 <= k < names.len() implies self.stream_step(
                        n,
                        #[trigger] names[k]@,
                        attached.escalates(sink_id@),
                        marks[k],
                        marks[k + 1],
                        reports[k],
                        reports[k + 1],
                    ) by {
                        self.same_step(
                            &attached,
                            n,
                            names[k]@,
                            attached.escalates(sink_id@),
                            marks[k],
                            marks[k + 1],
                            reports[k],
                            reports[k + 1],
                        );
                    }
                    assert(self.caught_up(n, attached.escalates(sink_id@), names, marks, reports));
                    assert(self.catches_up(
                        n,
                        attached.escalates(sink_id@),
                        before.marks(),
                        self.marks(),
                        report@,
                    ));
                }
                Ok(())
            },
            Err(e) => {
                proof {
                    let n = before.dispatcher.sinks().len() as int;
                    self.same_break_off(
                        &attached,
                        n,
                        last.starts_empty(),
                        before.marks(),
                        self.marks(),
                        e@,
                    );
                }
                Err(e)
            },
        }
    }

    /// What handing the sink at position `i` the state of `stream` at `at`, or at
    /// the head, comes to.
    pub open spec fn handed_over(
        &self,
        i: int,
        stream: Seq<char>,
        at: Option<SeqNo>,
        r: Result<SeqNo, StoreError>,
    ) -> bool {
        let target = match at {
            Some(seq) => Some(seq.0),
            None => self.log().head(stream),
        };
        match target {
            None => r matches Err(e) && e@ == ErrorView::UnknownStream(stream),
            Some(seq) => match self.answer_at(stream, seq) {
                Err(error) => r matches Err(e) && e@ == error,
                Ok(state) => {
                    let delivery = DeliveryView {
                        stream,
                        seq,
                        state,
                        event: self.event_at(stream, seq),
                    };
                    match r {
                        Ok(done) => done.0 == seq && self.dispatcher().sinks()[i].may_report(
                            delivery,
                            Ok(()),
                        ),
                        Err(e) => self.dispatcher().sinks()[i].may_report(delivery, Err(e@)),
                    }
                },
            },
        }
    }

    /// The storage may fail with `error` while the state of `stream` at `at`, or at
    /// the head, is read.
    pub open spec fn moment_may_fail(
        &self,
        stream: Seq<char>,
        at: Option<SeqNo>,
        error: ErrorView,
    ) -> bool {
        match at {
            Some(seq) => self.state_may_fail(stream, seq, error),
            None => self.current_may_fail(stream, error),
        }
    }

    /// Where there is a state, there is an event.
    proof fn event_is_there(&self, stream: Seq<char>, at: u64)
        requires
            self.wf(),
            self.answer_at(stream, at) is Ok,
        ensures
            since(self.events_of(stream), at as int).len() > 0,
    {
        shown_is_gap_free(self, stream);
        let shown = self.events_of(stream);
        assert(shown[shown.len() - 1] == shown.last());
    }

    /// Hand the sink `sink_id` the state of `stream` at `at`, or at the head,
    /// whether it wants the stream or not. Its checkpoint stays where it is.
    pub fn materialize_to_sink(&self, stream: &StreamId, sink_id: &str, at: Option<SeqNo>) -> (r:
        Result<SeqNo, StoreError>)
        requires
            self.wf(),
        ensures
            match self.dispatcher().first_named(sink_id@) {
                None => r matches Err(e) && e@ == ErrorView::UnknownSink(sink_id@),
                Some(i) => self.handed_over(i, stream@, at, r) || (!self.reliable() && (
                r matches Err(e) && self.moment_may_fail(stream@, at, e@))),
            },
    {
        let i = match self.dispatcher.find_sink(sink_id) {
            Some(i) => i,
            None => {
                return Err(StoreError::UnknownSink(sink_id.to_owned()));
            },
        };
        let target = match at {
            Some(seq) => seq,
            None => match self.head(stream) {
                Ok(Some(head)) => head,
                Ok(None) => {
                    return Err(StoreError::UnknownStream(stream.clone()));
                },
                Err(e) => {
                    return Err(e);
                },
            },
        };
        let (state, event) = match self.moment(stream, target) {
            Ok(moment) => moment,
            Err(e) => {
                return Err(e);
            },
        };
        match self.dispatcher.sink(i).commit(stream, target, &state, &event) {
            Ok(_) => Ok(target),
            Err(e) => Err(e),
        }
    }

    /// The state of `stream` at `at`, with the event there.
    pub(crate) fn moment(&self, stream: &StreamId, at: SeqNo) -> (r: Result<
        (serde_json::Value, Event),
        StoreError,
    >)
        requires
            self.wf(),
        ensures
            match r {
                Ok((state, event)) => {
                    &&& self.answer_at(stream@, at.0) == StateResult::Ok(json_text(state))
                    &&& event@ == self.event_at(stream@, at.0)
                },
                Err(e) => self.answer_at(stream@, at.0) == StateResult::Err(e@) || (
                !self.reliable() && self.state_may_fail(stream@, at, e@)),
            },
    {
        let state = match self.state_at(stream, at) {
            Ok(state) => state,
            Err(e) => {
                return Err(e);
            },
        };
        let mut found = match self.events.read(stream, at, 1) {
            Ok(found) => found,
            Err(e) => {
                return Err(e);
            },
        };
        proof {
            self.event_is_there(stream@, at.0);
            assert(event_views(found@).len() == found@.len());
        }
        if found.len() == 0 {
            return Err(StoreError::UnknownStream(stream.clone()));
        }
        proof {
            assert(event_views(found@)[0] == found@[0]@);
        }
        Ok((state, found.swap_remove(0)))
    }
}

} // verus!
