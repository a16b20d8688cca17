//! Writing: appends, imports, reverts and deletions.
use std::sync::Arc;

use vstd::prelude::*;

use crate::backend::{
    append_effect, append_may_give, condition_may_give, head_conflict, head_is, import_may_give, keeps_latest,
    CacheBackend, CheckpointBackend, Entries, EventBackend,
};
use crate::dispatcher::{delivered_to_all, Marks};
use crate::error::{ErrorView, StoreError, ViolationView};
use crate::event::{event_views, Committed, DraftView, Event, EventView, NewEvent};
use crate::faults::{head_may_fail, prune_may_fail, put_may_fail, read_may_fail};
use crate::gate::{CandidateView, GateCtx, SchemaGate};
use crate::id::{SeqNo, StreamId, Timestamp};
use crate::json::{
    apply_patch, changes_nothing, diff, diffed, empty_object, is_object, is_object_text,
    json_member, json_string, json_text, leads_to, number, patch_of, patch_of_operations,
    patch_text, patched, set_member, with_member,
};
use crate::log::next_of;
use crate::sink::{DeliveryView, ProjectionSink, SinkFailureObserver};
use crate::state::{empty_state, empty_text, state_result, StateResult};
use crate::store::read::shown_is_gap_free;
use crate::store::{REVERT_KIND, Store, TOMBSTONE_KIND, WriteMode};
use crate::text::{decimal, decimal_text};
use crate::upcaster::upcast_through;

verus! {

/// Every gate may let `candidate` pass.
pub open spec fn passes(gates: Seq<Arc<dyn SchemaGate>>, candidate: CandidateView) -> bool {
    forall|i: int| 0 <= i < gates.len() ==> #[trigger] gates[i].may_answer(candidate, Ok(()))
}

/// Some gate may turn `candidate` down with `violation`, and every gate before
/// it may let it pass.
pub open spec fn turned_down(
    gates: Seq<Arc<dyn SchemaGate>>,
    candidate: CandidateView,
    violation: ViolationView,
) -> bool {
    exists|i: int|
        0 <= i < gates.len() && #[trigger] gates[i].may_answer(candidate, Err(violation))
            && forall|j: int| 0 <= j < i ==> #[trigger] gates[j].may_answer(candidate, Ok(()))
}

/// No gate may turn `candidate` down.
pub open spec fn cannot_turn_down(
    gates: Seq<Arc<dyn SchemaGate>>,
    candidate: CandidateView,
) -> bool {
    forall|i: int, violation: ViolationView|
        0 <= i < gates.len() ==> !#[trigger] gates[i].may_answer(candidate, Err(violation))
}

/// The coordinate `head` as it is handed to callers.
pub open spec fn as_seq(head: Option<u64>) -> Option<SeqNo> {
    match head {
        Some(h) => Some(SeqNo(h)),
        None => None,
    }
}

/// A head that is not where the writer expected it is a conflict, however it
/// came to light: the expected coordinate lies beyond the head, the stream has no
/// events, or the coordinate was compacted away.
pub open spec fn as_conflict(
    answer: StateResult,
    expected: SeqNo,
    head: Option<SeqNo>,
) -> StateResult {
    match answer {
        Err(ErrorView::SeqOutOfRange { head: found, requested }) => Err(
            ErrorView::HeadConflict { expected, actual: found },
        ),
        Err(ErrorView::UnknownStream(_)) => Err(ErrorView::HeadConflict { expected, actual: None }),
        Err(ErrorView::SeqCompacted { boundary, requested }) => Err(
            ErrorView::HeadConflict { expected, actual: head },
        ),
        other => other,
    }
}

/// The error of a conditional append whose expected state could not be read,
/// where the head is `head`.
pub fn conflict_of(error: StoreError, expected: SeqNo, head: Option<SeqNo>) -> (r: StoreError)
    ensures
        as_conflict(Err(error@), expected, head) == StateResult::Err(r@),
{
    match error {
        StoreError::SeqOutOfRange { head, requested } => StoreError::HeadConflict {
            expected,
            actual: head,
        },
        StoreError::UnknownStream(_) => StoreError::HeadConflict { expected, actual: None },
        StoreError::SeqCompacted { boundary, requested } => StoreError::HeadConflict {
            expected,
            actual: head,
        },
        other => other,
    }
}

/// Whether the state at `seq` goes to the cache.
pub open spec fn stride_hit(stride: u64, seq: u64) -> bool {
    stride > 0 && seq % stride == 0
}

/// Whether the state at `seq` goes to the cache.
pub fn is_stride_hit(stride: u64, seq: SeqNo) -> (r: bool)
    ensures
        r == stride_hit(stride, seq.0),
{
    stride > 0 && seq.0 % stride == 0
}

/// What the cache holds of a stream once `state` was put at `seq` and all but
/// the `keep` latest were dropped. That dropping may fail without consequence.
pub open spec fn cached(
    before: Entries,
    after: Entries,
    seq: u64,
    state: Seq<char>,
    keep: Option<usize>,
    sure: bool,
) -> bool {
    match keep {
        None => after == before.insert(seq, state),
        Some(k) => keeps_latest(before.insert(seq, state), after, k as nat) || (!sure && after
            == before.insert(seq, state)),
    }
}

/// A committed event has gone to each sink, and moved the marks from `before` to
/// `after`.
pub open spec fn dispatched(
    sinks: Seq<Arc<dyn ProjectionSink>>,
    observer: Option<Arc<dyn SinkFailureObserver>>,
    delivery: DeliveryView,
    before: Marks,
    after: Marks,
) -> bool {
    exists|marks: Seq<Marks>| #[trigger]
        delivered_to_all(sinks, observer, delivery, marks) && marks.first() == before
            && marks.last() == after
}

/// The message for a committed patch that does not apply.
pub open spec fn reapply_words(upcasted: bool, message: Seq<char>) -> Seq<char> {
    if upcasted {
        "post-commit upcasted reapply: "@ + message
    } else {
        "post-commit reapply: "@ + message
    }
}

/// The attribution of a revert to `to`: what the caller added, if it is an
/// object, with the target under its reserved key.
pub open spec fn revert_meta(extra: Seq<char>, to: u64) -> Seq<char> {
    with_member(
        if is_object_text(extra) {
            extra
        } else {
            "{}"@
        },
        "revert_to"@,
        decimal(to as nat),
    )
}

/// `meta` says that a revert went to `to`, and holds what else `extra` held; where
/// that was no object, it holds nothing else.
pub open spec fn attributes_revert(meta: Seq<char>, extra: Seq<char>, to: u64) -> bool {
    &&& json_member(meta, "revert_to"@) == Some(decimal(to as nat))
    &&& forall|key: Seq<char>|
        key != "revert_to"@ ==> #[trigger] json_member(meta, key) == if is_object_text(extra) {
            json_member(extra, key)
        } else {
            None
        }
    &&& !is_object_text(extra) ==> meta == seq!['{'] + json_string("revert_to"@) + seq![':']
        + decimal(to as nat) + seq!['}']
}

impl<E: EventBackend, C: CacheBackend, K: CheckpointBackend> Store<E, C, K> {
    /// The state that a write starts from, or why it cannot start.
    pub open spec fn base_answer(&self, stream: Seq<char>, mode: WriteMode) -> StateResult {
        match mode {
            WriteMode::AppendIfHead(expected) => if expected.0 == 0 {
                Ok(empty_text())
            } else {
                as_conflict(
                    self.answer_at(stream, expected.0),
                    expected,
                    as_seq(self.log().head(stream)),
                )
            },
            _ => self.answer_now(stream),
        }
    }

    /// Whether the state after an event at `seq` is needed once it is committed.
    pub open spec fn needs_state(&self, seq: u64) -> bool {
        stride_hit(self.config().cache_stride, seq) || self.dispatcher().sinks().len() > 0
    }

    /// Log, cache and marks are as they were in `earlier`.
    pub open spec fn untouched(&self, earlier: &Self) -> bool {
        &&& self.same_log(earlier)
        &&& self.same_cache(earlier)
        &&& self.marks() == earlier.marks()
    }

    /// The storage may fail with `error` while the event of `stream` at `seq` is
    /// read back.
    pub open spec fn read_back_may_fail(
        &self,
        stream: Seq<char>,
        seq: u64,
        error: ErrorView,
    ) -> bool {
        read_may_fail(self.events().inner, stream, SeqNo(seq), 1, error)
    }

    /// What follows a commit: the state goes to the cache where it is due, and
    /// the event to the sinks.
    pub open spec fn settled(
        &self,
        earlier: &Self,
        stream: Seq<char>,
        current: Seq<char>,
        event: EventView,
        error: Option<ErrorView>,
    ) -> bool {
        let failed = error is Some;
        if !earlier.needs_state(event.seq) {
            !failed && self.same_cache(earlier) && self.marks() == earlier.marks()
        } else {
            match patched(current, event.patch) {
                Err(m) => {
                    &&& self.same_cache(earlier)
                    &&& self.marks() == earlier.marks()
                    &&& error == Some(
                        ErrorView::Patch(reapply_words(earlier.events().upcasters@.len() > 0, m)),
                    ) || (!earlier.reliable() && earlier.events().upcasters@.len() > 0 && (
                    error matches Some(e) && self.read_back_may_fail(stream, event.seq, e)))
                },
                Ok(next) => {
                    &&& forall|s: Seq<char>|
                        s != stream ==> #[trigger] self.entries(s) == earlier.entries(s)
                    &&& error matches Some(e) ==> {
                        &&& !earlier.reliable()
                        &&& self.marks() == earlier.marks()
                        &&& self.read_back_may_fail(stream, event.seq, e) || put_may_fail(
                            earlier.cache(),
                            stream,
                            SeqNo(event.seq),
                            next,
                            e,
                        )
                    }
                    &&& !failed ==> {
                        &&& if stride_hit(earlier.config().cache_stride, event.seq) {
                            cached(
                                earlier.entries(stream),
                                self.entries(stream),
                                event.seq,
                                next,
                                earlier.config().cache_keep_latest,
                                earlier.cache().reliable(),
                            )
                        } else {
                            self.entries(stream) == earlier.entries(stream)
                        }
                        &&& if earlier.dispatcher().sinks().len() > 0 {
                            dispatched(
                                earlier.dispatcher().sinks(),
                                earlier.dispatcher().observer(),
                                DeliveryView { stream, seq: event.seq, state: next, event },
                                earlier.marks(),
                                self.marks(),
                            )
                        } else {
                            self.marks() == earlier.marks()
                        }
                    }
                    &&& self.entries(stream) == earlier.entries(stream) || cached(
                        earlier.entries(stream),
                        self.entries(stream),
                        event.seq,
                        next,
                        earlier.config().cache_keep_latest,
                        earlier.cache().reliable(),
                    )
                },
            }
        }
    }

    /// The gates have nothing against a write, as far as there are gates.
    pub open spec fn admitted(
        &self,
        stream: Seq<char>,
        draft: DraftView,
        current: Seq<char>,
    ) -> bool {
        self.gates()@.len() > 0 ==> {
            patched(current, draft.patch) matches Ok(next) && passes(
                self.gates()@,
                CandidateView {
                    stream,
                    kind: draft.kind,
                    patch: draft.patch,
                    current,
                    next,
                },
            )
        }
    }

    /// Why the gates refuse a write.
    pub open spec fn refused(
        &self,
        stream: Seq<char>,
        draft: DraftView,
        current: Seq<char>,
        error: ErrorView,
    ) -> bool {
        &&& self.gates()@.len() > 0
        &&& match patched(current, draft.patch) {
            Err(m) => error == ErrorView::Patch("gate preview: "@ + m),
            Ok(next) => error matches ErrorView::Schema(violation) && turned_down(
                self.gates()@,
                CandidateView {
                    stream,
                    kind: draft.kind,
                    patch: draft.patch,
                    current,
                    next,
                },
                violation,
            ),
        }
    }

    /// A write stopped before the log and left everything as it was: its base
    /// state cannot be had, the gates refuse it, or the backend does.
    pub open spec fn not_written(
        &self,
        earlier: &Self,
        stream: Seq<char>,
        draft: DraftView,
        mode: WriteMode,
        error: ErrorView,
    ) -> bool {
        &&& self.untouched(earlier)
        &&& (!earlier.reliable() && earlier.base_may_fail(stream, mode, error))
            || match earlier.base_answer(stream, mode) {
            Err(e) => error == e,
            Ok(current) => earlier.refused(stream, draft, current, error) || (earlier.admitted(
                stream,
                draft,
                current,
            ) && (earlier.declined(stream, draft, mode, error) || (!earlier.reliable()
                && earlier.commit_may_fail(stream, draft, mode, error)))),
        }
    }

    /// The storage may fail with `error` while the state that a write starts from
    /// is read.
    pub open spec fn base_may_fail(
        &self,
        stream: Seq<char>,
        mode: WriteMode,
        error: ErrorView,
    ) -> bool {
        match mode {
            WriteMode::AppendIfHead(expected) => {
                ||| head_may_fail(self.events().inner, stream, error)
                ||| exists|cause: ErrorView| #[trigger]
                    self.state_may_fail(stream, expected, cause) && as_conflict(
                        Err(cause),
                        expected,
                        as_seq(self.log().head(stream)),
                    ) == StateResult::Err(error)
            },
            _ => self.current_may_fail(stream, error),
        }
    }

    /// The backend may answer a write in `mode` with `error`.
    pub open spec fn commit_may_fail(
        &self,
        stream: Seq<char>,
        draft: DraftView,
        mode: WriteMode,
        error: ErrorView,
    ) -> bool {
        match mode {
            WriteMode::Append => append_may_give(self.events().inner, stream, draft, Err(error)),
            WriteMode::Import(at) => import_may_give(
                self.events().inner,
                stream,
                draft,
                at,
                Err(error),
            ),
            WriteMode::AppendIfHead(expected) => condition_may_give(
                self.events().inner,
                stream,
                draft,
                expected,
                Err(error),
            ),
        }
    }

    /// Why a working backend does not take a write: it does not offer the mode,
    /// or the head is not the expected one.
    pub open spec fn declined(
        &self,
        stream: Seq<char>,
        draft: DraftView,
        mode: WriteMode,
        error: ErrorView,
    ) -> bool {
        match mode {
            WriteMode::Append => false,
            WriteMode::Import(at) => error == ErrorView::BackendUnsupported("import_event"@)
                && import_may_give(self.events().inner, stream, draft, at, Err(error)),
            WriteMode::AppendIfHead(expected) => (error == ErrorView::BackendUnsupported(
                "append_if_head"@,
            ) || head_conflict(self.log(), stream, expected, error)) && condition_may_give(
                self.events().inner,
                stream,
                draft,
                expected,
                Err(error),
            ),
        }
    }

    /// A write reached the log, as the next event of the stream, at time `at`.
    pub open spec fn written(
        &self,
        earlier: &Self,
        stream: Seq<char>,
        draft: DraftView,
        mode: WriteMode,
        at: i64,
        r: Result<Committed, StoreError>,
    ) -> bool {
        let seq = next_of(earlier.log().events(stream)) as u64;
        let event = draft.committed(seq, at);
        let committed = Committed { seq: SeqNo(seq), at: Timestamp(at) };
        &&& self.log() == earlier.log().appended(stream, event)
        &&& match mode {
            WriteMode::Append => append_may_give(
                earlier.events().inner,
                stream,
                draft,
                Ok(committed),
            ),
            WriteMode::Import(time) => at == time.0 && import_may_give(
                earlier.events().inner,
                stream,
                draft,
                time,
                Ok(committed),
            ),
            WriteMode::AppendIfHead(expected) => head_is(earlier.log(), stream, expected)
                && condition_may_give(
                earlier.events().inner,
                stream,
                draft,
                expected,
                Ok(committed),
            ),
        }
        &&& earlier.base_answer(stream, mode) matches Ok(current) && earlier.admitted(
            stream,
            draft,
            current,
        ) && self.settled(
            earlier,
            stream,
            current,
            upcast_through(earlier.events().upcasters@, event),
            match r {
                Ok(_) => None,
                Err(e) => Some(e@),
            },
        )
        &&& r matches Ok(c) ==> c == committed
    }

    /// What a write does.
    pub open spec fn write_effect(
        &self,
        earlier: &Self,
        stream: Seq<char>,
        draft: DraftView,
        mode: WriteMode,
        r: Result<Committed, StoreError>,
    ) -> bool {
        ||| r matches Err(e) && self.not_written(earlier, stream, draft, mode, e@)
        ||| exists|at: i64| #[trigger] self.written(earlier, stream, draft, mode, at, r)
    }

    /// A write that the backend takes has to succeed: nothing that it depends on
    /// fails, the patch applies as far as anybody looks, and no gate may turn it
    /// down.
    pub open spec fn append_is_due(&self, stream: Seq<char>, draft: DraftView) -> bool {
        &&& self.reliable()
        &&& self.answer_now(stream) matches Ok(current) && {
            &&& self.gates()@.len() > 0 ==> {
                patched(current, draft.patch) matches Ok(next) && cannot_turn_down(
                    self.gates()@,
                    CandidateView {
                        stream,
                        kind: draft.kind,
                        patch: draft.patch,
                        current,
                        next,
                    },
                )
            }
            &&& self.needs_state(next_of(self.log().events(stream)) as u64) ==> forall|at: i64|
                patched(
                    current,
                    (#[trigger] upcast_through(
                        self.events().upcasters@,
                        draft.committed(next_of(self.log().events(stream)) as u64, at),
                    )).patch,
                ) is Ok
        }
    }

    /// The backend takes a write in `mode`: it offers the mode, and the head is
    /// where the writer expects it.
    pub open spec fn offered(&self, stream: Seq<char>, draft: DraftView, mode: WriteMode) -> bool {
        &&& mode matches WriteMode::AppendIfHead(expected) ==> head_is(
            self.log(),
            stream,
            expected,
        )
        &&& forall|error: ErrorView| !#[trigger] self.declined(stream, draft, mode, error)
    }

    /// The state that a write starts from.
    fn base_state(&self, stream: &StreamId, mode: &WriteMode) -> (r: Result<
        serde_json::Value,
        StoreError,
    >)
        requires
            self.wf(),
        ensures
            r is Ok || self.reliable() ==> state_result(r) == self.base_answer(stream@, *mode),
            r matches Err(e) ==> self.base_answer(stream@, *mode) == StateResult::Err(e@)
                || self.base_may_fail(stream@, *mode, e@),
    {
        match mode {
            WriteMode::AppendIfHead(expected) => {
                if expected.0 == 0 {
                    return Ok(empty_state());
                }
                match self.state_at(stream, *expected) {
                    Ok(state) => Ok(state),
                    Err(StoreError::SeqCompacted { boundary, requested }) => {
                        let compacted = StoreError::SeqCompacted { boundary, requested };
                        match self.head(stream) {
                            Ok(head) => Err(conflict_of(compacted, *expected, head)),
                            Err(e) => Err(e),
                        }
                    },
                    Err(e) => Err(conflict_of(e, *expected, None)),
                }
            },
            _ => self.state(stream),
        }
    }

    /// Put a candidate write before the gates. The state after it comes back
    /// where there are gates.
    fn check_gates(
        &self,
        stream: &StreamId,
        kind: &str,
        patch: &json_patch::Patch,
        current: &serde_json::Value,
        Ghost(draft): Ghost<DraftView>,
    ) -> (r: Result<Option<serde_json::Value>, StoreError>)
        requires
            draft.kind == kind@,
            draft.patch == patch_text(*patch),
        ensures
            match r {
                Ok(next) => {
                    &&& self.admitted(stream@, draft, json_text(*current))
                    &&& next matches Some(n) ==> patched(json_text(*current), patch_text(*patch))
                        == Ok::<Seq<char>, Seq<char>>(json_text(n))
                },
                Err(e) => self.refused(stream@, draft, json_text(*current), e@),
            },
    {
        if self.gates.len() == 0 {
            return Ok(None);
        }
        let next = match apply_patch(current, patch) {
            Ok(next) => next,
            Err(m) => {
                let mut words = "gate preview: ".to_owned();
                words.append(m.as_str());
                return Err(StoreError::Patch(words));
            },
        };
        let ctx = GateCtx { stream, kind, patch, current, next: &next };
        let mut i: usize = 0;
        while i < self.gates.len()
            invariant
                i <= self.gates@.len(),
                ctx@ == (CandidateView {
                    stream: stream@,
                    kind: draft.kind,
                    patch: draft.patch,
                    current: json_text(*current),
                    next: json_text(next),
                }),
                draft.patch == patch_text(*patch),
                patched(json_text(*current), draft.patch) == Ok::<Seq<char>, Seq<char>>(
                    json_text(next),
                ),
                forall|j: int| 0 <= j < i ==> #[trigger] self.gates@[j].may_answer(ctx@, Ok(())),
            decreases self.gates@.len() - i,
        {
            match self.gates[i].validate(&ctx) {
                Ok(_) => {
                    proof {
                        assert(self.gates@[i as int].may_answer(ctx@, Ok(())));
                    }
                },
                Err(v) => {
                    proof {
                        assert(self.gates@[i as int].may_answer(ctx@, Err(v@)));
                        assert(turned_down(self.gates@, ctx@, v@));
                    }
                    return Err(StoreError::Schema(v));
                },
            }
            i = i + 1;
        }
        Ok(Some(next))
    }

    /// Hand a draft to the backend.
    fn commit_record(&mut self, stream: &StreamId, rec: NewEvent, mode: &WriteMode) -> (r: Result<
        Committed,
        StoreError,
    >)
        requires
            old(self).wf(),
            old(self).log().has_room(stream@),
        ensures
            final(self).wf(),
            final(self).same_setup(old(self)),
            final(self).dispatcher() == old(self).dispatcher(),
            final(self).cache() == old(self).cache(),
            append_effect(old(self).log(), final(self).log(), stream@, rec, r),
            r matches Ok(c) ==> match mode {
                WriteMode::Append => append_may_give(
                    old(self).events().inner,
                    stream@,
                    rec@,
                    Ok(c),
                ),
                WriteMode::Import(time) => c.at == *time && import_may_give(
                    old(self).events().inner,
                    stream@,
                    rec@,
                    *time,
                    Ok(c),
                ),
                WriteMode::AppendIfHead(expected) => head_is(old(self).log(), stream@, *expected)
                    && condition_may_give(
                    old(self).events().inner,
                    stream@,
                    rec@,
                    *expected,
                    Ok(c),
                ),
            },
            old(self).reliable() ==> (r matches Err(e) ==> old(self).declined(
                stream@,
                rec@,
                *mode,
                e@,
            )),
            r matches Err(e) ==> old(self).commit_may_fail(stream@, rec@, *mode, e@),
    {
        match mode {
            WriteMode::Append => self.events.inner.append(stream, rec),
            WriteMode::Import(at) => self.events.inner.import_event(stream, rec, *at),
            WriteMode::AppendIfHead(expected) => self.events.inner.append_if_head(
                stream,
                rec,
                *expected,
            ),
        }
    }

    /// The last event of `stream`, which is at `seq`, as it is read.
    fn read_back(&self, stream: &StreamId, seq: SeqNo) -> (r: Result<Event, StoreError>)
        requires
            self.wf(),
            self.log().known(stream@),
            self.log().events(stream@).last().seq == seq.0,
        ensures
            r matches Ok(event) ==> event@ == self.events_of(stream@).last(),
            self.reliable() ==> r is Ok,
            r matches Err(e) ==> self.read_back_may_fail(stream@, seq.0, e@),
    {
        let ghost shown = self.events_of(stream@);
        proof {
            shown_is_gap_free(self, stream@);
        }
        let mut events = match self.events.read(stream, seq, 1) {
            Ok(events) => events,
            Err(e) => {
                return Err(e);
            },
        };
        proof {
            assert(shown.last().seq == seq.0);
            assert(shown[shown.len() - 1] == shown.last());
            assert(event_views(events@) =~= seq![shown.last()]);
            assert(event_views(events@)[0] == events@[0]@);
            assert(event_views(events@).len() == events@.len());
        }
        if events.len() == 0 {
            let mut words = "post-commit read at seq=".to_owned();
            words.append(decimal_text(seq.0).as_str());
            words.append(" returned nothing");
            return Err(StoreError::Backend(words));
        }
        Ok(events.swap_remove(0))
    }

    /// Do what follows a commit.
    fn settle(
        &mut self,
        stream: &StreamId,
        seq: SeqNo,
        current: &serde_json::Value,
        patch: &json_patch::Patch,
        precomputed: Option<serde_json::Value>,
    ) -> (r: Result<(), StoreError>)
        requires
            old(self).wf(),
            old(self).log().known(stream@),
            old(self).log().events(stream@).last().seq == seq.0,
            old(self).log().events(stream@).last().patch == patch_text(*patch),
            precomputed matches Some(n) ==> patched(json_text(*current), patch_text(*patch)) == Ok::<
                Seq<char>,
                Seq<char>,
            >(json_text(n)),
        ensures
            final(self).wf(),
            final(self).same_setup(old(self)),
            final(self).same_log(old(self)),
            final(self).dispatcher().caught_up() == old(self).dispatcher().caught_up(),
            final(self).settled(
                old(self),
                stream@,
                json_text(*current),
                old(self).events_of(stream@).last(),
                match r {
                    Ok(_) => None,
                    Err(e) => Some(e@),
                },
            ),
    {
        let ghost before = *self;
        let ghost shown = self.events_of(stream@).last();
        proof {
            shown_is_gap_free(self, stream@);
            let stored = self.log().events(stream@);
            assert(shown == upcast_through(self.events.upcasters@, stored.last()));
        }
        let hit = is_stride_hit(self.config.cache_stride, seq);
        let has_sinks = self.dispatcher.has_sinks();
        if !hit && !has_sinks {
            return Ok(());
        }
        let mut preloaded: Option<Event> = None;
        let next = if self.events.upcasters.len() > 0 {
            let event = match self.read_back(stream, seq) {
                Ok(event) => event,
                Err(e) => {
                    proof {
                        assert(!before.reliable());
                    }
                    return Err(e);
                },
            };
            let next = match apply_patch(current, &event.patch) {
                Ok(next) => next,
                Err(m) => {
                    let mut words = "post-commit upcasted reapply: ".to_owned();
                    words.append(m.as_str());
                    return Err(StoreError::Patch(words));
                },
            };
            preloaded = Some(event);
            next
        } else {
            match precomputed {
                Some(next) => next,
                None => match apply_patch(current, patch) {
                    Ok(next) => next,
                    Err(m) => {
                        let mut words = "post-commit reapply: ".to_owned();
                        words.append(m.as_str());
                        return Err(StoreError::Patch(words));
                    },
                },
            }
        };
        let ghost next_text = json_text(next);
        proof {
            assert(patched(json_text(*current), shown.patch) == Ok::<Seq<char>, Seq<char>>(
                next_text,
            ));
        }
        if hit {
            match self.cache.put(stream, seq, &next) {
                Ok(_) => {},
                Err(e) => {
                    return Err(e);
                },
            }
            match self.config.cache_keep_latest {
                Some(keep) => {
                    let pruned = self.cache.prune(stream, keep);
                },
                None => {},
            }
        }
        proof {
            assert(hit ==> cached(
                before.entries(stream@),
                self.entries(stream@),
                seq.0,
                next_text,
                before.config.cache_keep_latest,
                before.cache.reliable(),
            ));
        }
        if has_sinks {
            let event = match preloaded {
                Some(event) => event,
                None => match self.read_back(stream, seq) {
                    Ok(event) => event,
                    Err(e) => {
                        return Err(e);
                    },
                },
            };
            self.dispatcher.dispatch_commit(stream, seq, &next, &event);
            proof {
                let delivery = DeliveryView {
                    stream: stream@,
                    seq: shown.seq,
                    state: next_text,
                    event: shown,
                };
                let marks = choose|marks: Seq<Marks>| #[trigger]
                    delivered_to_all(
                        before.dispatcher.sinks(),
                        before.dispatcher.observer(),
                        delivery,
                        marks,
                    ) && marks.first() == before.marks() && marks.last() == self.marks();
                delivery_keeps_setup(
                    before.dispatcher.sinks(),
                    before.dispatcher.observer(),
                    delivery,
                    marks,
                    before.dispatcher.sinks().len() as int,
                );
            }
        }
        Ok(())
    }

    /// Write one event: read the state, ask the gates, append, fill the cache
    /// and tell the sinks.
    pub fn write_event(
        &mut self,
        stream: &StreamId,
        kind: &str,
        patch: json_patch::Patch,
        meta: serde_json::Value,
        mode: WriteMode,
    ) -> (r: Result<Committed, StoreError>)
        requires
            old(self).wf(),
            old(self).log().has_room(stream@),
        ensures
            final(self).wf(),
            final(self).same_setup(old(self)),
            final(self).dispatcher().caught_up() == old(self).dispatcher().caught_up(),
            final(self).write_effect(
                old(self),
                stream@,
                (DraftView { kind: kind@, patch: patch_text(patch), meta: json_text(meta) }),
                mode,
                r,
            ),
            old(self).append_is_due(
                stream@,
                (DraftView { kind: kind@, patch: patch_text(patch), meta: json_text(meta) }),
            ) && old(self).offered(
                stream@,
                (DraftView { kind: kind@, patch: patch_text(patch), meta: json_text(meta) }),
                mode,
            ) ==> r is Ok,
    {
        let ghost before = *self;
        let ghost draft = DraftView {
            kind: kind@,
            patch: patch_text(patch),
            meta: json_text(meta),
        };
        proof {
            shown_is_gap_free(self, stream@);
            if self.append_is_due(stream@, draft) && self.offered(stream@, draft, mode) {
                assert(self.events_of(stream@).len() > 0 ==> self.events_of(stream@).last().seq
                    >= self.events_of(stream@)[0].seq);
                assert(self.base_answer(stream@, mode) == self.answer_now(stream@));
            }
        }
        let current = match self.base_state(stream, &mode) {
            Ok(current) => current,
            Err(e) => {
                proof {
                    assert(self.not_written(&before, stream@, draft, mode, e@));
                }
                return Err(e);
            },
        };
        let precomputed = match self.check_gates(stream, kind, &patch, &current, Ghost(draft)) {
            Ok(next) => next,
            Err(e) => {
                proof {
                    assert(self.not_written(&before, stream@, draft, mode, e@));
                }
                return Err(e);
            },
        };
        let rec = NewEvent { kind: kind.to_owned(), patch: patch.clone(), meta };
        proof {
            assert(rec@ == draft);
        }
        let committed = match self.commit_record(stream, rec, &mode) {
            Ok(committed) => committed,
            Err(e) => {
                proof {
                    assert(self.not_written(&before, stream@, draft, mode, e@));
                }
                return Err(e);
            },
        };
        let ghost event = draft.committed(committed.seq.0, committed.at.0);
        let ghost middle = *self;
        proof {
            assert(self.log().events(stream@) == before.log().events(stream@).push(event));
            assert(self.log().events(stream@).last() == event);
            assert(self.events_of(stream@).last() == upcast_through(
                before.events.upcasters@,
                event,
            ));
        }
        match self.settle(stream, committed.seq, &current, &patch, precomputed) {
            Ok(_) => {
                proof {
                    assert(self.written(
                        &before,
                        stream@,
                        draft,
                        mode,
                        committed.at.0,
                        Ok(committed),
                    ));
                }
                Ok(committed)
            },
            Err(e) => {
                proof {
                    assert(self.written(
                        &before,
                        stream@,
                        draft,
                        mode,
                        committed.at.0,
                        Err::<Committed, StoreError>(e),
                    ));
                }
                Err(e)
            },
        }
    }

    /// Append one event at the time of the call.
    pub fn append(
        &mut self,
        stream: &StreamId,
        kind: &str,
        patch: json_patch::Patch,
        meta: serde_json::Value,
    ) -> (r: Result<Committed, StoreError>)
        requires
            old(self).wf(),
            old(self).log().has_room(stream@),
        ensures
            final(self).wf(),
            final(self).same_setup(old(self)),
            final(self).dispatcher().caught_up() == old(self).dispatcher().caught_up(),
            final(self).write_effect(
                old(self),
                stream@,
                (DraftView { kind: kind@, patch: patch_text(patch), meta: json_text(meta) }),
                WriteMode::Append,
                r,
            ),
            old(self).append_is_due(
                stream@,
                (DraftView { kind: kind@, patch: patch_text(patch), meta: json_text(meta) }),
            ) ==> r is Ok,
    {
        self.write_event(stream, kind, patch, meta, WriteMode::Append)
    }

    /// Append one event if the head of the stream is `expected_head`; zero stands
    /// for a stream without events.
    pub fn append_if_head(
        &mut self,
        stream: &StreamId,
        kind: &str,
        patch: json_patch::Patch,
        meta: serde_json::Value,
        expected_head: SeqNo,
    ) -> (r: Result<Committed, StoreError>)
        requires
            old(self).wf(),
            old(self).log().has_room(stream@),
        ensures
            final(self).wf(),
            final(self).same_setup(old(self)),
            final(self).dispatcher().caught_up() == old(self).dispatcher().caught_up(),
            final(self).write_effect(
                old(self),
                stream@,
                (DraftView { kind: kind@, patch: patch_text(patch), meta: json_text(meta) }),
                WriteMode::AppendIfHead(expected_head),
                r,
            ),
            old(self).append_is_due(
                stream@,
                (DraftView { kind: kind@, patch: patch_text(patch), meta: json_text(meta) }),
            ) && old(self).offered(
                stream@,
                (DraftView { kind: kind@, patch: patch_text(patch), meta: json_text(meta) }),
                WriteMode::AppendIfHead(expected_head),
            ) ==> r is Ok,
    {
        self.write_event(stream, kind, patch, meta, WriteMode::AppendIfHead(expected_head))
    }

    /// Append one event that carries the time `at`.
    pub fn import_event(
        &mut self,
        stream: &StreamId,
        kind: &str,
        patch: json_patch::Patch,
        meta: serde_json::Value,
        at: Timestamp,
    ) -> (r: Result<Committed, StoreError>)
        requires
            old(self).wf(),
            old(self).log().has_room(stream@),
        ensures
            final(self).wf(),
            final(self).same_setup(old(self)),
            final(self).dispatcher().caught_up() == old(self).dispatcher().caught_up(),
            final(self).write_effect(
                old(self),
                stream@,
                (DraftView { kind: kind@, patch: patch_text(patch), meta: json_text(meta) }),
                WriteMode::Import(at),
                r,
            ),
            old(self).append_is_due(
                stream@,
                (DraftView { kind: kind@, patch: patch_text(patch), meta: json_text(meta) }),
            ) && old(self).offered(
                stream@,
                (DraftView { kind: kind@, patch: patch_text(patch), meta: json_text(meta) }),
                WriteMode::Import(at),
            ) ==> r is Ok,
    {
        self.write_event(stream, kind, patch, meta, WriteMode::Import(at))
    }

    /// The draft of the event that takes `stream` from `current` back to `target`,
    /// the state at `to`.
    pub open spec fn revert_draft(
        current: Seq<char>,
        target: Seq<char>,
        extra: Seq<char>,
        to: u64,
    ) -> DraftView {
        DraftView {
            kind: REVERT_KIND@,
            patch: diffed(current, target),
            meta: revert_meta(extra, to),
        }
    }

    /// What a revert does: the difference between the current state and the one
    /// at `to` is appended, or one of the two states cannot be had.
    pub open spec fn revert_effect(
        &self,
        earlier: &Self,
        stream: Seq<char>,
        to: u64,
        extra: Seq<char>,
        r: Result<Committed, StoreError>,
    ) -> bool {
        ||| (earlier.answer_now(stream) matches Ok(current) && earlier.answer_at(
            stream,
            to,
        ) matches Ok(target) && {
            &&& leads_to(current, diffed(current, target), target)
            &&& attributes_revert(revert_meta(extra, to), extra, to)
            &&& self.write_effect(
                earlier,
                stream,
                Self::revert_draft(current, target, extra, to),
                WriteMode::Append,
                r,
            )
        })
        ||| (r matches Err(e) && self.untouched(earlier) && ((!earlier.reliable() && (
        earlier.current_may_fail(stream, e@) || earlier.state_may_fail(stream, SeqNo(to), e@)))
            || match (
            earlier.answer_now(stream),
            earlier.answer_at(stream, to),
        ) {
            (Err(error), _) => e@ == error,
            (Ok(_), Err(error)) => e@ == error,
            (Ok(_), Ok(_)) => false,
        }))
    }

    /// Take `stream` back to the state at `to` by appending one more event.
    pub fn revert(&mut self, stream: &StreamId, to: SeqNo) -> (r: Result<Committed, StoreError>)
        requires
            old(self).wf(),
            old(self).log().has_room(stream@),
        ensures
            final(self).wf(),
            final(self).same_setup(old(self)),
            final(self).dispatcher().caught_up() == old(self).dispatcher().caught_up(),
            final(self).revert_effect(old(self), stream@, to.0, empty_text(), r),
            old(self).revert_is_due(stream@, to.0, empty_text()) ==> r is Ok,
    {
        self.revert_with_meta(stream, to, crate::json::null())
    }

    /// A revert has to succeed: both states can be had, and appending the
    /// difference is due.
    pub open spec fn revert_is_due(&self, stream: Seq<char>, to: u64, extra: Seq<char>) -> bool {
        self.answer_now(stream) matches Ok(current) && self.answer_at(
            stream,
            to,
        ) matches Ok(target) && (self.append_is_due(
            stream,
            Self::revert_draft(current, target, extra, to),
        ) || (self.reliable() && self.gates()@.len() == 0 && self.events().upcasters@.len() == 0))
    }

    /// Take `stream` back to the state at `to` by appending one more event. The
    /// members of `extra_meta` go into its attribution, if it is an object; the
    /// key `revert_to` always holds the target.
    pub fn revert_with_meta(
        &mut self,
        stream: &StreamId,
        to: SeqNo,
        extra_meta: serde_json::Value,
    ) -> (r: Result<Committed, StoreError>)
        requires
            old(self).wf(),
            old(self).log().has_room(stream@),
        ensures
            final(self).wf(),
            final(self).same_setup(old(self)),
            final(self).dispatcher().caught_up() == old(self).dispatcher().caught_up(),
            final(self).revert_effect(old(self), stream@, to.0, json_text(extra_meta), r),
            old(self).revert_is_due(stream@, to.0, json_text(extra_meta)) ==> r is Ok,
    {
        let ghost extra = json_text(extra_meta);
        let current = match self.state(stream) {
            Ok(current) => current,
            Err(e) => {
                return Err(e);
            },
        };
        let target = match self.state_at(stream, to) {
            Ok(target) => target,
            Err(e) => {
                return Err(e);
            },
        };
        let patch = diff(&current, &target);
        let meta = revert_attribution(extra_meta, to);
        proof {
            let draft = Self::revert_draft(json_text(current), json_text(target), extra, to.0);
            assert(draft.patch == patch_text(patch));
            if self.events.upcasters@.len() == 0 {
                assert forall|at: i64| patched(
                    json_text(current),
                    (#[trigger] upcast_through(
                        self.events.upcasters@,
                        draft.committed(next_of(self.log().events(stream@)) as u64, at),
                    )).patch,
                ) is Ok by {}
            }
        }
        self.write_event(stream, REVERT_KIND, patch, meta, WriteMode::Append)
    }

    /// The draft of the event that marks a stream as deleted. Its patch leaves
    /// the state as it is.
    pub open spec fn tombstone_draft(meta: Seq<char>) -> DraftView {
        DraftView {
            kind: TOMBSTONE_KIND@,
            patch: patch_of_operations(Seq::empty()),
            meta,
        }
    }

    /// Mark `stream` as deleted. Its history and its state stay.
    pub fn delete(&mut self, stream: &StreamId, meta: serde_json::Value) -> (r: Result<
        Committed,
        StoreError,
    >)
        requires
            old(self).wf(),
            old(self).log().has_room(stream@),
        ensures
            final(self).wf(),
            final(self).same_setup(old(self)),
            final(self).dispatcher().caught_up() == old(self).dispatcher().caught_up(),
            changes_nothing(patch_of_operations(Seq::empty())),
            final(self).write_effect(
                old(self),
                stream@,
                Self::tombstone_draft(json_text(meta)),
                WriteMode::Append,
                r,
            ),
            old(self).append_is_due(stream@, Self::tombstone_draft(json_text(meta))) ==> r is Ok,
            old(self).reliable() && old(self).gates()@.len() == 0 && old(
                self,
            ).events().upcasters@.len() == 0 && old(self).answer_now(stream@) is Ok ==> r is Ok,
    {
        let ops: Vec<json_patch::PatchOperation> = Vec::new();
        proof {
            assert(crate::json::operation_texts(ops@) =~= Seq::<Seq<char>>::empty());
        }
        let patch = patch_of(ops);
        proof {
            let draft = Self::tombstone_draft(json_text(meta));
            assert(draft.patch == patch_text(patch));
            if self.events.upcasters@.len() == 0 {
                match self.answer_now(stream@) {
                    Ok(current) => {
                        assert forall|at: i64| patched(
                            current,
                            (#[trigger] upcast_through(
                                self.events.upcasters@,
                                draft.committed(next_of(self.log().events(stream@)) as u64, at),
                            )).patch,
                        ) is Ok by {}
                    },
                    Err(_) => {},
                }
            }
        }
        self.write_event(stream, TOMBSTONE_KIND, patch, meta, WriteMode::Append)
    }

    /// Drop all but the `keep_latest` most recent cached states of `stream`.
    pub fn prune_cache(&mut self, stream: &StreamId, keep_latest: usize) -> (r: Result<
        (),
        StoreError,
    >)
        requires
            old(self).wf(),
        ensures
            final(self).wf(),
            final(self).same_setup(old(self)),
            final(self).same_log(old(self)),
            final(self).dispatcher() == old(self).dispatcher(),
            forall|s: Seq<char>| s != stream@ ==> #[trigger] final(self).entries(s) == old(
                self,
            ).entries(s),
            match r {
                Ok(_) => keeps_latest(
                    old(self).entries(stream@),
                    final(self).entries(stream@),
                    keep_latest as nat,
                ),
                Err(e) => final(self).entries(stream@) == old(self).entries(stream@)
                    && prune_may_fail(old(self).cache(), stream@, keep_latest, e@),
            },
            old(self).cache().reliable() ==> r is Ok,
    {
        self.cache.prune(stream, keep_latest)
    }
}

/// The attribution of a revert to `to`.
pub fn revert_attribution(extra: serde_json::Value, to: SeqNo) -> (r: serde_json::Value)
    ensures
        json_text(r) == revert_meta(json_text(extra), to.0),
        attributes_revert(json_text(r), json_text(extra), to.0),
{
    let base = if is_object(&extra) {
        extra
    } else {
        empty_object()
    };
    proof {
        reveal_strlit("{}");
        assert("{}"@[0] == '{');
    }
    set_member(base, "revert_to", number(to.0))
}

/// Deliveries change neither whether checkpoints are durable nor whether saving
/// them may fail.
proof fn delivery_keeps_setup(
    sinks: Seq<Arc<dyn ProjectionSink>>,
    observer: Option<Arc<dyn SinkFailureObserver>>,
    delivery: DeliveryView,
    marks: Seq<Marks>,
    n: int,
)
    requires
        delivered_to_all(sinks, observer, delivery, marks),
        0 <= n <= sinks.len(),
    ensures
        marks[n].durable == marks[0].durable,
        marks[n].sure == marks[0].sure,
    decreases n,
{
    if n > 0 {
        delivery_keeps_setup(sinks, observer, delivery, marks, n - 1);
        assert(crate::dispatcher::delivered(
            sinks,
            n - 1,
            observer,
            delivery,
            marks[n - 1],
            marks[n - 1 + 1],
        ));
    }
}

} // verus!
