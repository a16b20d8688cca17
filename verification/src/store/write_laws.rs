//! What each kind of write comes to, from the writer's side.
use std::sync::Arc;

use vstd::prelude::*;

use crate::backend::{
    head_is, keeps_latest, nearest_of, CacheBackend, CheckpointBackend, Entries, EventBackend,
};
use crate::error::{ErrorView, StoreError, ViolationView};
use crate::event::{Committed, DraftView, EventView};
use crate::gate::{CandidateView, SchemaGate};
use crate::id::{SeqNo, Timestamp};
use crate::json::{
    changes_nothing, diffed, json_member, patch_of_operations, patched, same_json,
};
use crate::log::{at_most, next_of, since, until};
use crate::sink::DeliveryView;
use crate::state::{a_replay_fails_on_a_patch, empty_text, StateResult};
use crate::store::read::{between, shown_is_gap_free};
use crate::store::write::{
    as_seq, attributes_revert, cached, conflict_of, dispatched, revert_meta, stride_hit,
    turned_down,
};
use crate::store::{Store, REVERT_KIND, TOMBSTONE_KIND, WriteMode};
use crate::text::decimal;
use crate::upcaster::upcast_through;

verus! {

impl<E: EventBackend, C: CacheBackend, K: CheckpointBackend> Store<E, C, K> {
    /// What a write that succeeded leaves in the log: the event, right after the
    /// head, as the writer was told; reading at its coordinate gives it back, as it
    /// was written where there are no upcasters. Every event that was there, every
    /// other stream and every label stays as it was.
    pub proof fn a_write_is_recorded(
        &self,
        earlier: &Self,
        stream: Seq<char>,
        draft: DraftView,
        mode: WriteMode,
        committed: Committed,
    )
        requires
            earlier.wf(),
            self.wf(),
            earlier.log().has_room(stream),
            self.same_setup(earlier),
            self.write_effect(earlier, stream, draft, mode, Ok(committed)),
        ensures
            ({
                let stored = draft.committed(committed.seq.0, committed.at.0);
                let shown = upcast_through(earlier.events().upcasters@, stored);
                &&& committed.seq.0 == next_of(earlier.log().events(stream))
                &&& mode matches WriteMode::Import(at) ==> committed.at == at
                &&& self.log().head(stream) == Some(committed.seq.0)
                &&& self.log().events(stream) == earlier.log().events(stream).push(stored)
                &&& at_most(since(self.events_of(stream), committed.seq.0 as int), 1) == seq![shown]
                &&& earlier.events().upcasters@.len() == 0 ==> shown == stored
            }),
            forall|other: Seq<char>|
                other != stream ==> #[trigger] self.log().events(other) == earlier.log().events(
                    other,
                ),
            forall|other: Seq<char>| #[trigger]
                self.log().labels(other) == earlier.log().labels(other),
    {
        let r: Result<Committed, StoreError> = Ok(committed);
        let at = choose|at: i64| #[trigger] self.written(earlier, stream, draft, mode, at, r);
        self.a_write_adds_one_event(earlier, stream, draft, mode, at, r);
        shown_is_gap_free(earlier, stream);
        shown_is_gap_free(self, stream);
        let stored = draft.committed(committed.seq.0, committed.at.0);
        let shown = upcast_through(earlier.events.upcasters@, stored);
        assert(self.log().events(stream) =~= earlier.log().events(stream).push(stored));
        let after = self.events_of(stream);
        assert(after.last() == shown);
        assert(after[after.len() - 1].seq == after[0].seq + after.len() - 1);
        assert(at_most(since(after, committed.seq.0 as int), 1) =~= seq![shown]);
    }

    /// What follows a write that succeeded. The state goes to the cache exactly
    /// where the stride asks for it, and the event to the sinks where there are
    /// any. Both get the state that is then read at the new coordinate, after every
    /// upcaster. Older cached states go where the settings say so, which may fail
    /// without consequence.
    pub proof fn cache_and_sinks_get_the_new_state(
        &self,
        earlier: &Self,
        stream: Seq<char>,
        draft: DraftView,
        mode: WriteMode,
        committed: Committed,
    )
        requires
            earlier.wf(),
            self.wf(),
            earlier.log().has_room(stream),
            earlier.cache_is_coherent(),
            self.same_setup(earlier),
            self.write_effect(earlier, stream, draft, mode, Ok(committed)),
        ensures
            ({
                let seq = committed.seq.0;
                let due = stride_hit(earlier.config().cache_stride, seq);
                let sinks = earlier.dispatcher().sinks();
                let event = upcast_through(
                    earlier.events().upcasters@,
                    draft.committed(seq, committed.at.0),
                );
                &&& !due ==> self.entries(stream) == earlier.entries(stream)
                &&& sinks.len() == 0 ==> self.marks() == earlier.marks()
                &&& due || sinks.len() > 0 ==> (self.answer_at(stream, seq) matches Ok(state) && {
                    &&& due ==> cached(
                        earlier.entries(stream),
                        self.entries(stream),
                        seq,
                        state,
                        earlier.config().cache_keep_latest,
                        earlier.cache().reliable(),
                    )
                    &&& sinks.len() > 0 ==> dispatched(
                        sinks,
                        earlier.dispatcher().observer(),
                        DeliveryView { stream, seq, state, event },
                        earlier.marks(),
                        self.marks(),
                    )
                })
            }),
            forall|other: Seq<char>|
                other != stream ==> #[trigger] self.entries(other) == earlier.entries(other),
    {
        let r: Result<Committed, StoreError> = Ok(committed);
        let at = choose|at: i64| #[trigger] self.written(earlier, stream, draft, mode, at, r);
        self.a_write_is_read_back(earlier, stream, draft, mode, committed);
        shown_is_gap_free(self, stream);
        assert(self.answer_at(stream, committed.seq.0) == self.answer_now(stream));
    }

    /// A revert that succeeded is one more event, which says where it went back to.
    /// The state is then equal to the one at the target, and every state up to the
    /// old head stays. Upcasters are not to rewrite the event of the revert.
    pub proof fn a_revert_is_one_more_event(
        &self,
        earlier: &Self,
        stream: Seq<char>,
        to: u64,
        extra: Seq<char>,
        committed: Committed,
        at: u64,
    )
        requires
            earlier.wf(),
            self.wf(),
            earlier.log().has_room(stream),
            earlier.cache_is_coherent(),
            self.same_setup(earlier),
            self.revert_effect(earlier, stream, to, extra, Ok(committed)),
            earlier.answer_now(stream) matches Ok(current) ==> earlier.answer_at(
                stream,
                to,
            ) matches Ok(target) ==> earlier.is_shown_as_stored(
                Self::revert_draft(current, target, extra, to).committed(
                    committed.seq.0,
                    committed.at.0,
                ),
            ),
        ensures
            committed.seq.0 == next_of(earlier.log().events(stream)),
            self.log().events(stream).drop_last() == earlier.log().events(stream),
            self.log().events(stream).last().seq == committed.seq.0,
            self.log().events(stream).last().kind == REVERT_KIND@,
            self.log().events(stream).last().meta == revert_meta(extra, to),
            attributes_revert(revert_meta(extra, to), extra, to),
            earlier.answer_at(stream, to) matches Ok(target) && self.answer_now(
                stream,
            ) matches Ok(state) && same_json(state, target),
            earlier.log().head(stream) matches Some(head) ==> at <= head ==> self.answer_at(
                stream,
                at,
            ) == earlier.answer_at(stream, at),
            self.cache_is_coherent(),
    {
        let current = earlier.answer_now(stream)->Ok_0;
        let target = earlier.answer_at(stream, to)->Ok_0;
        let draft = Self::revert_draft(current, target, extra, to);
        self.a_revert_restores_the_state(earlier, stream, to, extra, committed);
        self.a_write_is_recorded(earlier, stream, draft, WriteMode::Append, committed);
        self.writing_keeps_the_cache_coherent(
            earlier,
            stream,
            draft,
            WriteMode::Append,
            Ok(committed),
        );
        assert(self.log().events(stream).drop_last() =~= earlier.log().events(stream));
        if earlier.log().head(stream) matches Some(head) && at <= head {
            self.past_answers_stay(
                earlier,
                stream,
                draft,
                WriteMode::Append,
                Ok(committed),
                stream,
                at,
            );
        }
    }

    /// A revert can be taken back: reverting to the head from before it brings the
    /// state from before it back. Upcasters are not to rewrite the events of the
    /// two reverts.
    pub proof fn a_revert_can_be_taken_back(
        &self,
        middle: &Self,
        earlier: &Self,
        stream: Seq<char>,
        to: u64,
        extra: Seq<char>,
        first: Committed,
        head: u64,
        second: Committed,
    )
        requires
            earlier.wf(),
            middle.wf(),
            self.wf(),
            earlier.log().has_room(stream),
            middle.log().has_room(stream),
            earlier.cache_is_coherent(),
            middle.same_setup(earlier),
            self.same_setup(middle),
            earlier.log().head(stream) == Some(head),
            earlier.events().upcasters@.len() == 0,
            middle.revert_effect(earlier, stream, to, extra, Ok(first)),
            self.revert_effect(middle, stream, head, extra, Ok(second)),
        ensures
            earlier.answer_now(stream) matches Ok(before) && self.answer_now(stream) matches Ok(
                state,
            ) && same_json(state, before),
    {
        middle.a_revert_is_one_more_event(earlier, stream, to, extra, first, head);
        self.a_revert_is_one_more_event(middle, stream, head, extra, second, head);
        shown_is_gap_free(earlier, stream);
        assert(earlier.answer_now(stream) == earlier.answer_at(stream, head));
    }

    /// A deletion that succeeded is one more event that changes nothing and carries
    /// the given attribution. The state, every state up to the old head and every
    /// event stay; the stream is still listed, but not among the live ones.
    /// Upcasters are not to rewrite the event of the deletion.
    pub proof fn a_deletion_is_one_more_event(
        &self,
        earlier: &Self,
        stream: Seq<char>,
        meta: Seq<char>,
        committed: Committed,
        at: u64,
    )
        requires
            earlier.wf(),
            self.wf(),
            earlier.log().has_room(stream),
            earlier.cache_is_coherent(),
            self.same_setup(earlier),
            changes_nothing(Self::tombstone_draft(meta).patch),
            self.write_effect(
                earlier,
                stream,
                Self::tombstone_draft(meta),
                WriteMode::Append,
                Ok(committed),
            ),
            earlier.is_shown_as_stored(
                Self::tombstone_draft(meta).committed(committed.seq.0, committed.at.0),
            ),
        ensures
            committed.seq.0 == next_of(earlier.log().events(stream)),
            self.log().events(stream).drop_last() == earlier.log().events(stream),
            self.log().events(stream).last() == Self::tombstone_draft(meta).committed(
                committed.seq.0,
                committed.at.0,
            ),
            self.log().events(stream).last().kind == TOMBSTONE_KIND@,
            self.answer_now(stream) == earlier.answer_now(stream),
            earlier.log().head(stream) matches Some(head) ==> at <= head ==> self.answer_at(
                stream,
                at,
            ) == earlier.answer_at(stream, at),
            self.log().known(stream),
            !self.live(stream),
            self.cache_is_coherent(),
    {
        let draft = Self::tombstone_draft(meta);
        self.a_deletion_keeps_the_state(earlier, stream, meta, committed);
        self.a_write_is_recorded(earlier, stream, draft, WriteMode::Append, committed);
        self.writing_keeps_the_cache_coherent(
            earlier,
            stream,
            draft,
            WriteMode::Append,
            Ok(committed),
        );
        assert(self.log().events(stream).drop_last() =~= earlier.log().events(stream));
        if earlier.log().head(stream) matches Some(head) && at <= head {
            self.past_answers_stay(
                earlier,
                stream,
                draft,
                WriteMode::Append,
                Ok(committed),
                stream,
                at,
            );
        }
    }

    /// A conditional write that expects another head is a conflict, and says where
    /// the head is; nothing is written. A backend without conditional appends
    /// declines instead. There are no gates that could turn the write down first,
    /// and no patch up to the expected coordinate is at fault.
    pub proof fn a_stale_expectation_is_a_conflict(
        &self,
        earlier: &Self,
        stream: Seq<char>,
        draft: DraftView,
        expected: SeqNo,
        r: Result<Committed, StoreError>,
    )
        requires
            earlier.wf(),
            earlier.reliable(),
            earlier.log().has_room(stream),
            earlier.gates()@.len() == 0,
            !head_is(earlier.log(), stream, expected),
            !(earlier.answer_at(stream, expected.0) matches Err(ErrorView::Patch(_))),
            self.write_effect(earlier, stream, draft, WriteMode::AppendIfHead(expected), r),
        ensures
            self.untouched(earlier),
            r matches Err(e) && (e@ == (ErrorView::HeadConflict {
                expected,
                actual: as_seq(earlier.log().head(stream)),
            }) || e@ == ErrorView::BackendUnsupported("append_if_head"@)),
    {
        shown_is_gap_free(earlier, stream);
        let shown = earlier.events_of(stream);
        a_replay_fails_on_a_patch(empty_text(), until(shown, expected.0 as int));
        match nearest_of(earlier.entries(stream), expected.0) {
            Some((seq, state)) => {
                a_replay_fails_on_a_patch(state, between(shown, seq as int, expected.0 as int));
            },
            None => {},
        }
    }
}

/// The states at the multiples of the stride go to the cache, and no others; a stride of
/// zero sends none.
pub proof fn the_multiples_of_the_stride_are_cached(stride: u64, seq: u64)
    ensures
        stride_hit(stride, seq) <==> stride > 0 && exists|k: int| seq == #[trigger] (k * stride),
{
    if stride > 0 {
        let s = stride as int;
        vstd::arithmetic::div_mod::lemma_fundamental_div_mod(seq as int, s);
        let k = seq as int / s;
        vstd::arithmetic::mul::lemma_mul_is_commutative(s, k);
        if seq % stride == 0 {
            assert(seq == k * stride);
        }
        assert forall|j: int| seq == #[trigger] (j * stride) implies seq % stride == 0 by {
            vstd::arithmetic::div_mod::lemma_mod_multiples_basic(j, s);
        }
    }
}

/// A state that goes to the cache is there under its coordinate. Where the cache is kept
/// short and works, as many states stay as the settings say and no more, the latest of
/// them; the one that was put there is among them if it is the latest.
pub proof fn a_cached_state_stays_with_the_latest(
    before: Entries,
    after: Entries,
    seq: u64,
    state: Seq<char>,
    keep: Option<usize>,
    sure: bool,
)
    requires
        before.dom().finite(),
        cached(before, after, seq, state, keep, sure),
    ensures
        keep is None ==> after.dom() == before.dom().insert(seq) && after[seq] == state,
        forall|other: u64|
            #[trigger] after.dom().contains(other) && other != seq ==> before.dom().contains(other)
                && after[other] == before[other],
        after.dom().contains(seq) ==> after[seq] == state,
        keep matches Some(k) ==> sure ==> after.dom().len() <= k,
        keep matches Some(k) ==> before.dom().len() < k ==> after.dom() == before.dom().insert(seq),
        (forall|other: u64| #[trigger] before.dom().contains(other) ==> other <= seq) && (
        keep matches Some(k) ==> k > 0) ==> after.dom().contains(seq),
{
    let put = before.insert(seq, state);
    assert(put.dom() =~= before.dom().insert(seq));
    match keep {
        None => {},
        Some(k) => if keeps_latest(put, after, k as nat) {
            assert(after.dom().subset_of(put.dom()));
            vstd::set_lib::lemma_len_subset(after.dom(), put.dom());
            if put.dom().len() <= k {
                vstd::set_lib::lemma_subset_equality(after.dom(), put.dom());
            }
            if !after.dom().contains(seq) && k > 0 && (forall|other: u64| #[trigger]
                before.dom().contains(other) ==> other <= seq) {
                assert(put.dom().contains(seq));
                assert(after.dom() =~= Set::<u64>::empty()) by {
                    assert forall|kept: u64| !after.dom().contains(kept) by {
                        if after.dom().contains(kept) {
                            assert(put.dom().contains(kept));
                        }
                    }
                }
                assert(put.dom().len() > 0) by {
                    if put.dom().len() == 0 {
                        assert(put.dom().remove(seq).len() == put.dom().len() - 1);
                    }
                }
            }
        },
    }
}

/// The violation that a write is turned down with comes from a gate that stands no later
/// than the first that never lets the write pass.
pub proof fn the_first_gate_that_objects_is_heard(
    gates: Seq<Arc<dyn SchemaGate>>,
    candidate: CandidateView,
    violation: ViolationView,
    strict: int,
)
    requires
        turned_down(gates, candidate, violation),
        0 <= strict < gates.len(),
        !gates[strict].may_answer(candidate, Ok(())),
    ensures
        exists|i: int|
            0 <= i <= strict && #[trigger] gates[i].may_answer(candidate, Err(violation)) && forall|
                j: int,
            |
                0 <= j < i ==> #[trigger] gates[j].may_answer(candidate, Ok(())),
{
}

/// The attribution of a revert holds the target under a key of its own, and besides
/// that what the caller put there.
pub proof fn a_revert_keeps_what_the_caller_said(
    meta: Seq<char>,
    extra: Seq<char>,
    to: u64,
    key: Seq<char>,
)
    requires
        attributes_revert(meta, extra, to),
    ensures
        json_member(meta, "revert_to"@) == Some(decimal(to as nat)),
        key != "revert_to"@ && extra.len() > 0 && extra[0] == '{' ==> json_member(meta, key)
            == json_member(extra, key),
        key != "revert_to"@ && !(extra.len() > 0 && extra[0] == '{') ==> json_member(meta, key)
            is None,
{
}

/// An error of reading the state that a conditional write expects is a conflict, if it
/// says that the state is not there; every other error stays as it is.
pub proof fn a_missing_base_is_a_conflict(
    error: StoreError,
    expected: SeqNo,
    head: Option<SeqNo>,
    r: StoreError,
)
    requires
        call_ensures(conflict_of, (error, expected, head), r),
    ensures
        error@ matches ErrorView::SeqOutOfRange { head: found, requested } ==> r@
            == (ErrorView::HeadConflict { expected, actual: found }),
        error@ is UnknownStream ==> r@ == (ErrorView::HeadConflict { expected, actual: None }),
        error@ is SeqCompacted ==> r@ == (ErrorView::HeadConflict { expected, actual: head }),
        !(error@ is SeqOutOfRange || error@ is UnknownStream || error@ is SeqCompacted) ==> r@
            == error@,
{
}

impl<E: EventBackend, C: CacheBackend, K: CheckpointBackend> Store<E, C, K> {
    /// Why the gates refuse a write: its patch does not apply to the state that it starts
    /// from, or one of them turned it down, after those before it let it pass. They saw
    /// the write as it was made, with the state before it and the state after it. Without
    /// gates nothing is refused.
    pub proof fn a_write_is_refused_for_its_patch_or_by_a_gate(
        &self,
        stream: Seq<char>,
        draft: DraftView,
        current: Seq<char>,
        error: ErrorView,
    )
        requires
            self.refused(stream, draft, current, error),
        ensures
            self.gates()@.len() > 0,
            patched(current, draft.patch) matches Err(m) ==> error == ErrorView::Patch(
                "gate preview: "@ + m,
            ),
            patched(current, draft.patch) matches Ok(next) ==> error matches ErrorView::Schema(
                violation,
            ) && exists|i: int|
                0 <= i < self.gates()@.len() && #[trigger] self.gates()@[i].may_answer(
                    CandidateView {
                        stream,
                        kind: draft.kind,
                        patch: draft.patch,
                        current,
                        next,
                    },
                    Err(violation),
                ) && forall|j: int|
                    0 <= j < i ==> #[trigger] self.gates()@[j].may_answer(
                        CandidateView {
                            stream,
                            kind: draft.kind,
                            patch: draft.patch,
                            current,
                            next,
                        },
                        Ok(()),
                    ),
    {
    }

    /// A backend that works takes every plain append. It turns an import down only if it
    /// does not offer imports, and a conditional append only if it does not offer those or
    /// the head is not the expected one.
    pub proof fn a_working_backend_declines_little(
        &self,
        stream: Seq<char>,
        draft: DraftView,
        at: Timestamp,
        expected: SeqNo,
        error: ErrorView,
    )
        ensures
            !self.declined(stream, draft, WriteMode::Append, error),
            self.declined(stream, draft, WriteMode::Import(at), error) ==> error
                == ErrorView::BackendUnsupported("import_event"@),
            self.declined(stream, draft, WriteMode::AppendIfHead(expected), error) ==> error
                == ErrorView::BackendUnsupported("append_if_head"@) || (error
                == ErrorView::HeadConflict {
                expected,
                actual: match self.log().head(stream) {
                    Some(head) => Some(SeqNo(head)),
                    None => None,
                },
            } && self.log().head(stream) != Some(expected.0) && !(self.log().head(stream) is None
                && expected.0 == 0)),
    {
    }

    /// A committed event whose patch does not apply, as it is then shown, is reported as
    /// such where its state is needed: for the cache, or because there are sinks. Neither
    /// the cache nor the marks move, but the event stays.
    pub proof fn a_patch_that_does_not_apply_is_reported(
        &self,
        earlier: &Self,
        stream: Seq<char>,
        current: Seq<char>,
        event: EventView,
        failure: Seq<char>,
        error: Option<ErrorView>,
    )
        requires
            earlier.reliable(),
            self.settled(earlier, stream, current, event, error),
            earlier.dispatcher().sinks().len() > 0,
            patched(current, event.patch) == Err::<Seq<char>, Seq<char>>(failure),
        ensures
            error == Some(
                ErrorView::Patch(
                    if earlier.events().upcasters@.len() > 0 {
                        "post-commit upcasted reapply: "@ + failure
                    } else {
                        "post-commit reapply: "@ + failure
                    },
                ),
            ),
            self.same_cache(earlier),
            self.marks() == earlier.marks(),
    {
    }
}

impl<E: EventBackend, C: CacheBackend, K: CheckpointBackend> Store<E, C, K> {
    /// What a write starts from: the current state, or for a conditional one the state at
    /// the head that it expects, which is nothing where it expects none.
    pub proof fn a_write_starts_from_what_it_expects(
        &self,
        stream: Seq<char>,
        at: Timestamp,
        expected: SeqNo,
    )
        ensures
            self.base_answer(stream, WriteMode::Append) == self.answer_now(stream),
            self.base_answer(stream, WriteMode::Import(at)) == self.answer_now(stream),
            expected.0 == 0 ==> self.base_answer(stream, WriteMode::AppendIfHead(expected))
                == StateResult::Ok("null"@),
            expected.0 > 0 && self.answer_at(stream, expected.0) is Ok ==> self.base_answer(
                stream,
                WriteMode::AppendIfHead(expected),
            ) == self.answer_at(stream, expected.0),
    {
    }

    /// The state after an event is needed for the cache, where the stride asks for it, and
    /// for the sinks, where there are any; and otherwise nobody looks whether the patch
    /// applies.
    pub proof fn a_state_is_needed_for_the_cache_or_a_sink(&self, seq: u64)
        ensures
            self.needs_state(seq) <==> (self.config().cache_stride > 0 && seq
                % self.config().cache_stride == 0) || self.dispatcher().sinks().len() > 0,
    {
    }

    /// A plain append has to succeed in a store that works, without gates, without sinks
    /// and off the stride, whatever its patch, if the current state can be had.
    pub proof fn an_append_that_nobody_checks_is_due(&self, stream: Seq<char>, draft: DraftView)
        requires
            self.reliable(),
            self.answer_now(stream) is Ok,
            self.gates()@.len() == 0,
            self.dispatcher().sinks().len() == 0,
            self.config().cache_stride == 0,
        ensures
            self.append_is_due(stream, draft),
            self.offered(stream, draft, WriteMode::Append),
    {
    }

    /// An append that every gate lets pass, and whose patch applies in every shape that it
    /// may be shown in, has to succeed in a store that works.
    pub proof fn an_append_that_every_gate_lets_pass_is_due(
        &self,
        stream: Seq<char>,
        draft: DraftView,
        current: Seq<char>,
        next: Seq<char>,
    )
        requires
            self.reliable(),
            self.answer_now(stream) == StateResult::Ok(current),
            patched(current, draft.patch) == Ok::<Seq<char>, Seq<char>>(next),
            forall|i: int, violation: ViolationView|
                0 <= i < self.gates()@.len() ==> !#[trigger] self.gates()@[i].may_answer(
                    CandidateView {
                        stream,
                        kind: draft.kind,
                        patch: draft.patch,
                        current,
                        next,
                    },
                    Err(violation),
                ),
            self.events().upcasters@.len() == 0,
        ensures
            self.append_is_due(stream, draft),
    {
    }

    /// The event of a revert leads from the current state to the target, and that of a
    /// deletion nowhere; each is of a kind of its own.
    pub proof fn reverts_and_deletions_have_their_kinds(
        current: Seq<char>,
        target: Seq<char>,
        extra: Seq<char>,
        to: u64,
        meta: Seq<char>,
    )
        ensures
            Self::revert_draft(current, target, extra, to).kind == "reverted"@,
            Self::revert_draft(current, target, extra, to).patch == diffed(current, target),
            Self::tombstone_draft(meta).kind == "tombstoned"@,
            Self::tombstone_draft(meta).patch == seq!['[', ']'],
            Self::tombstone_draft(meta).meta == meta,
    {
        let none = Seq::<Seq<char>>::empty();
        assert(patch_of_operations(none) =~= seq!['[', ']']);
    }
}

impl<E: EventBackend, C: CacheBackend, K: CheckpointBackend> Store<E, C, K> {
    /// A revert for which one of the two states cannot be had changes nothing, and says why:
    /// first of the current state, and then of the one to go back to.
    pub proof fn a_revert_needs_both_states(
        &self,
        earlier: &Self,
        stream: Seq<char>,
        to: u64,
        extra: Seq<char>,
        r: Result<Committed, StoreError>,
    )
        requires
            earlier.reliable(),
            self.revert_effect(earlier, stream, to, extra, r),
        ensures
            earlier.answer_now(stream) matches Err(error) ==> r matches Err(e) && e@ == error,
            earlier.answer_now(stream) is Ok ==> (earlier.answer_at(stream, to) matches Err(error)
                ==> (r matches Err(e) && e@ == error)),
            earlier.answer_now(stream) is Err || earlier.answer_at(stream, to) is Err
                ==> self.untouched(earlier),
    {
    }
}

} // verus!
