//! What each request to a store that works comes to, from the reader's side, and what
//! each write hands on.
use std::sync::Arc;

use vstd::prelude::*;

use crate::backend::{
    every_stream_is_listed_once, in_name_order, label_map, CacheBackend, CheckpointBackend,
    EventBackend,
};
use crate::dispatcher::has_name;
use crate::error::{ErrorView, StoreError};
use crate::event::{event_views, Committed, DraftView, Event, EventView};
use crate::id::{Label, SeqNo, StreamId, Timestamp};
use crate::json::{json_member, json_text, patch_of_operations, patch_text, same_json};
use crate::log::{
    at_most, events_are_found_by_their_attribution, has_event, seq_not_after_is_greatest, since,
    since_is_a_filter, with_meta,
};
use crate::sink::{CatchUpReport, ProjectionSink, ReportView};
use crate::state::replay;
use crate::store::labels::labels_keep_events;
use crate::store::read::shown_is_gap_free;
use crate::store::{Store, WriteMode};
use crate::upcaster::upcast_through;

verus! {

impl<E: EventBackend, C: CacheBackend, K: CheckpointBackend> Store<E, C, K> {
    /// The current state is what all patches make of nothing, and the state at a
    /// coordinate is what the patches up to there make of nothing.
    pub proof fn a_state_is_what_the_patches_make(
        &self,
        stream: &StreamId,
        at: SeqNo,
        now: Result<serde_json::Value, StoreError>,
        then: Result<serde_json::Value, StoreError>,
    )
        requires
            self.wf(),
            self.reliable(),
            self.cache_is_coherent(),
            call_ensures(Store::<E, C, K>::state, (self, stream), now),
            call_ensures(Store::<E, C, K>::state_at, (self, stream, at), then),
        ensures
            match replay("null"@, self.events_of(stream@)) {
                Ok(state) => now matches Ok(v) && json_text(v) == state,
                Err(error) => now matches Err(e) && e@ == error,
            },
            self.boundary(stream@) is None && self.events_of(stream@).len() > 0 && at.0
                <= self.events_of(stream@).last().seq ==> match replay(
                "null"@,
                self.events_of(stream@).take(at.0 as int),
            ) {
                Ok(state) => then matches Ok(v) && json_text(v) == state,
                Err(error) => then matches Err(e) && e@ == error,
            },
    {
        self.every_request_for_a_state_is_answered(stream@, at.0);
    }

    /// A page holds the events from a coordinate on, in order, as many as were asked for
    /// and are there.
    pub proof fn a_page_holds_the_events_from_a_coordinate_on(
        &self,
        stream: &StreamId,
        from: SeqNo,
        limit: usize,
        r: Result<Vec<Event>, StoreError>,
    )
        requires
            self.wf(),
            self.reliable(),
            call_ensures(Store::<E, C, K>::read, (self, stream, from, limit), r),
        ensures
            ({
                let wanted = self.events_of(stream@).filter(|e: EventView| e.seq >= from.0);
                r matches Ok(events) && event_views(events@) == wanted.take(
                    if wanted.len() <= limit {
                        wanted.len() as int
                    } else {
                        limit as int
                    },
                )
            }),
    {
        shown_is_gap_free(self, stream@);
        since_is_a_filter(self.events_of(stream@), from.0 as int);
        let kept = |e: EventView| e.seq >= from.0 as int;
        let wanted = |e: EventView| e.seq >= from.0;
        assert(kept =~= wanted);
        let found = self.events_of(stream@).filter(wanted);
        assert(found.take(found.len() as int) =~= found);
    }

    /// A page by attribution holds events from a coordinate on whose attribution has the
    /// member as it was asked for, at most as many as were asked for, in the current
    /// shape. Every such event is on it, unless it is full.
    pub proof fn a_page_by_attribution_holds_what_was_asked_for(
        &self,
        stream: &StreamId,
        field: &str,
        value: &serde_json::Value,
        from: SeqNo,
        limit: usize,
        r: Result<Vec<Event>, StoreError>,
        event: EventView,
    )
        requires
            self.wf(),
            self.reliable(),
            call_ensures(
                Store::<E, C, K>::read_by_meta,
                (self, stream, field, value, from, limit),
                r,
            ),
        ensures
            r matches Ok(events) && {
                let chain = self.events().upcasters@;
                let stored = self.log().events(stream@);
                &&& events@.len() <= limit
                &&& forall|i: int|
                    0 <= i < events@.len() ==> exists|e: EventView|
                        stored.contains(e) && e.seq >= from.0 && (json_member(
                            e.meta,
                            field@,
                        ) matches Some(found) && same_json(found, json_text(*value)))
                            && #[trigger] upcast_through(chain, e) == (#[trigger] events@[i])@
                &&& events@.len() < limit && stored.contains(event) && event.seq >= from.0 && (
                json_member(event.meta, field@) matches Some(found) && same_json(
                    found,
                    json_text(*value),
                )) ==> event_views(events@).contains(upcast_through(chain, event))
            },
    {
        shown_is_gap_free(self, stream@);
        let stored = self.log().events(stream@);
        let text = json_text(*value);
        let later = since(stored, from.0 as int);
        let matching = with_meta(later, field@, text);
        let page = at_most(matching, limit as int);
        let chain = self.events().upcasters@;
        since_is_a_filter(stored, from.0 as int);
        let kept = |e: EventView| e.seq >= from.0 as int;
        broadcast use vstd::seq_lib::group_filter_ensures;

        match r {
            Ok(events) => {
                let views = event_views(events@);
                assert(views.len() == page.len());
                assert forall|i: int| 0 <= i < events@.len() implies exists|e: EventView|
                    stored.contains(e) && e.seq >= from.0 && (json_member(
                        e.meta,
                        field@,
                    ) matches Some(found) && same_json(found, text)) && #[trigger] upcast_through(
                        chain,
                        e,
                    ) == (#[trigger] events@[i])@ by {
                    let e = page[i];
                    assert(views[i] == events@[i]@);
                    assert(upcast_through(chain, e) == views[i]);
                    assert(matching[i] == e);
                    assert(matching.contains(e));
                    events_are_found_by_their_attribution(later, field@, text, e);
                    let k = later.index_of(e);
                    assert(kept(later[k]));
                    stored.lemma_filter_contains_rev(kept, e);
                }
                if events@.len() < limit && stored.contains(event) && event.seq >= from.0 && (
                json_member(event.meta, field@) matches Some(found) && same_json(found, text)) {
                    let j = stored.index_of(event);
                    assert(kept(stored[j]));
                    assert(later.contains(stored[j]));
                    events_are_found_by_their_attribution(later, field@, text, event);
                    assert(page == matching);
                    let m = matching.index_of(event);
                    assert(views[m] == upcast_through(chain, event));
                }
            },
            Err(_) => {},
        }
    }

    /// The head is the coordinate of the last event; a stream without events has none.
    pub proof fn the_head_is_that_of_the_last_event(
        &self,
        stream: &StreamId,
        r: Result<Option<SeqNo>, StoreError>,
    )
        requires
            self.wf(),
            self.reliable(),
            call_ensures(Store::<E, C, K>::head, (self, stream), r),
        ensures
            ({
                let stored = self.log().events(stream@);
                r matches Ok(head) && if stored.len() == 0 {
                    head is None
                } else {
                    head == Some(SeqNo(stored.last().seq))
                }
            }),
    {
    }

    /// The coordinate for a time is the greatest whose event is not later, if there is one.
    pub proof fn a_time_means_the_latest_event_by_then(
        &self,
        stream: &StreamId,
        at: Timestamp,
        r: Result<Option<SeqNo>, StoreError>,
    )
        requires
            self.wf(),
            self.reliable(),
            call_ensures(Store::<E, C, K>::seq_at_time, (self, stream, at), r),
        ensures
            ({
                let stored = self.log().events(stream@);
                r matches Ok(found) && match found {
                    Some(seq) => {
                        &&& exists|i: int|
                            0 <= i < stored.len() && (#[trigger] stored[i]).seq == seq.0
                                && stored[i].at <= at.0
                        &&& forall|i: int|
                            0 <= i < stored.len() && (#[trigger] stored[i]).at <= at.0
                                ==> stored[i].seq <= seq.0
                    },
                    None => forall|i: int|
                        0 <= i < stored.len() ==> (#[trigger] stored[i]).at > at.0,
                }
            }),
    {
        shown_is_gap_free(self, stream@);
        seq_not_after_is_greatest(self.log().events(stream@), at.0);
    }

    /// The streams are those that have events; the live ones, those whose last event, in
    /// its current shape, does not say that they are deleted.
    pub proof fn streams_are_those_with_events(
        &self,
        all: Result<Vec<StreamId>, StoreError>,
        live: Result<Vec<StreamId>, StoreError>,
        stream: Seq<char>,
    )
        requires
            self.wf(),
            self.reliable(),
            call_ensures(Store::<E, C, K>::streams, (self,), all),
            call_ensures(Store::<E, C, K>::streams_live, (self,), live),
        ensures
            all matches Ok(names) && ((exists|i: int|
                0 <= i < names@.len() && #[trigger] names@[i]@ == stream) <==> self.log().events(
                stream,
            ).len() > 0),
            live matches Ok(names) && ((exists|i: int|
                0 <= i < names@.len() && #[trigger] names@[i]@ == stream) <==> self.events_of(
                stream,
            ).len() > 0 && self.events_of(stream).last().kind != "tombstoned"@),
    {
        shown_is_gap_free(self, stream);
        match all {
            Ok(names) => every_stream_is_listed_once(self.log(), names@, stream),
            Err(_) => {},
        }
        match live {
            Ok(names) => self.every_live_stream_is_listed_once(names@, stream),
            Err(_) => {},
        }
    }

    /// A label resolves to where it points, and one that does not exist to nothing.
    pub proof fn a_label_resolves_to_where_it_points(
        &self,
        stream: &StreamId,
        label: &Label,
        r: Result<SeqNo, StoreError>,
        all: Result<Vec<(Label, SeqNo)>, StoreError>,
    )
        requires
            self.wf(),
            self.reliable(),
            call_ensures(Store::<E, C, K>::label_resolve, (self, stream, label), r),
            call_ensures(Store::<E, C, K>::labels, (self, stream), all),
        ensures
            match r {
                Ok(seq) => self.log().labels(stream@).dom().contains(label@) && self.log().labels(
                    stream@,
                )[label@] == seq.0,
                Err(e) => !self.log().labels(stream@).dom().contains(label@) && e@
                    == ErrorView::UnknownLabel(label@),
            },
            all matches Ok(pairs) && in_name_order(pairs@) && label_map(pairs@)
                == self.log().labels(stream@),
    {
    }

    /// An append writes what it was given, as one event of the stream it was given.
    pub proof fn an_append_writes_what_was_given()
        ensures
            forall|
                store: &mut Self,
                stream: &StreamId,
                kind: &str,
                patch: json_patch::Patch,
                meta: serde_json::Value,
                r: Result<Committed, StoreError>,
            | #[trigger]
                call_ensures(Store::<E, C, K>::append, (store, stream, kind, patch, meta), r)
                    ==> (*final(store)).write_effect(
                    &*store,
                    stream@,
                    (DraftView {
                        kind: kind@,
                        patch: patch_text(patch),
                        meta: json_text(meta),
                    }),
                    WriteMode::Append,
                    r,
                ),
    {
    }

    /// A conditional append writes what it was given, on the condition it was given.
    pub proof fn a_conditional_append_writes_what_was_given()
        ensures
            forall|
                store: &mut Self,
                stream: &StreamId,
                kind: &str,
                patch: json_patch::Patch,
                meta: serde_json::Value,
                expected: SeqNo,
                r: Result<Committed, StoreError>,
            | #[trigger]
                call_ensures(
                    Store::<E, C, K>::append_if_head,
                    (store, stream, kind, patch, meta, expected),
                    r,
                )
                    ==> (*final(store)).write_effect(
                    &*store,
                    stream@,
                    (DraftView {
                        kind: kind@,
                        patch: patch_text(patch),
                        meta: json_text(meta),
                    }),
                    WriteMode::AppendIfHead(expected),
                    r,
                ),
    {
    }

    /// An import writes what it was given, at the time it was given.
    pub proof fn an_import_writes_what_was_given()
        ensures
            forall|
                store: &mut Self,
                stream: &StreamId,
                kind: &str,
                patch: json_patch::Patch,
                meta: serde_json::Value,
                at: Timestamp,
                r: Result<Committed, StoreError>,
            | #[trigger]
                call_ensures(
                    Store::<E, C, K>::import_event,
                    (store, stream, kind, patch, meta, at),
                    r,
                )
                    ==> (*final(store)).write_effect(
                    &*store,
                    stream@,
                    (DraftView {
                        kind: kind@,
                        patch: patch_text(patch),
                        meta: json_text(meta),
                    }),
                    WriteMode::Import(at),
                    r,
                ),
    {
    }

    /// A deletion appends an event of a kind of its own that changes nothing, with the
    /// attribution it was given.
    pub proof fn a_deletion_writes_an_event_without_changes()
        ensures
            forall|
                store: &mut Self,
                stream: &StreamId,
                meta: serde_json::Value,
                r: Result<Committed, StoreError>,
            | #[trigger]
                call_ensures(Store::<E, C, K>::delete, (store, stream, meta), r)
                    ==> (*final(store)).write_effect(
                    &*store,
                    stream@,
                    (DraftView {
                        kind: "tombstoned"@,
                        patch: seq!['[', ']'],
                        meta: json_text(meta),
                    }),
                    WriteMode::Append,
                    r,
                ),
    {
        let none = Seq::<Seq<char>>::empty();
        assert(patch_of_operations(none) =~= seq!['[', ']']);
    }

    /// A revert appends the difference between the current state and the one at the
    /// target, with the attribution it was given. A plain one is given none.
    pub proof fn a_revert_writes_the_difference()
        ensures
            forall|
                store: &mut Self,
                stream: &StreamId,
                to: SeqNo,
                extra: serde_json::Value,
                r: Result<Committed, StoreError>,
            | #[trigger]
                call_ensures(Store::<E, C, K>::revert_with_meta, (store, stream, to, extra), r)
                    ==> (*final(store)).revert_effect(
                    &*store,
                    stream@,
                    to.0,
                    json_text(extra),
                    r,
                ),
            forall|
                store: &mut Self,
                stream: &StreamId,
                to: SeqNo,
                r: Result<Committed, StoreError>,
            | #[trigger]
                call_ensures(Store::<E, C, K>::revert, (store, stream, to), r)
                    ==> (*final(store)).revert_effect(
                    &*store,
                    stream@,
                    to.0,
                    "null"@,
                    r,
                ),
    {
    }

    /// A label that is set where there is an event points there. No other label changes,
    /// and no event. Where there is no event, nothing changes.
    pub proof fn a_label_points_where_it_was_set()
        ensures
            forall|
                store: &mut Self,
                stream: &StreamId,
                label: &Label,
                at: SeqNo,
                r: Result<(), StoreError>,
            | #[trigger]
                call_ensures(Store::<E, C, K>::label_set, (store, stream, label, at), r)
                    && store.reliable() ==> {
                    let before = store.log();
                    let after = (*final(store)).log();
                    if has_event(before.events(stream@), at.0) {
                        &&& after.labels(stream@).dom() == before.labels(stream@).dom().insert(
                            label@,
                        )
                        &&& after.labels(stream@)[label@] == at.0
                        &&& forall|s: Seq<char>, other: Seq<char>|
                            s != stream@ || other != label@ ==> #[trigger] after.labels(s)[other]
                                == before.labels(s)[other]
                        &&& forall|s: Seq<char>| #[trigger] after.events(s) == before.events(s)
                    } else {
                        &&& after == before
                        &&& r is Err
                    }
                },
    {
        assert forall|
            store: &mut Self,
            stream: &StreamId,
            label: &Label,
            at: SeqNo,
            r: Result<(), StoreError>,
        | #[trigger]
            call_ensures(Store::<E, C, K>::label_set, (store, stream, label, at), r)
                && store.reliable() implies {
            let before = store.log();
            let after = (*final(store)).log();
            if has_event(before.events(stream@), at.0) {
                &&& after.labels(stream@).dom() == before.labels(stream@).dom().insert(label@)
                &&& after.labels(stream@)[label@] == at.0
                &&& forall|s: Seq<char>, other: Seq<char>|
                    s != stream@ || other != label@ ==> #[trigger] after.labels(s)[other]
                        == before.labels(s)[other]
                &&& forall|s: Seq<char>| #[trigger] after.events(s) == before.events(s)
            } else {
                &&& after == before
                &&& r is Err
            }
        } by {
            let before = store.log();
            let labels = before.labels(stream@).insert(label@, at.0);
            labels_keep_events(before, stream@, labels);
            let after = (*final(store)).log();
            assert(labels.dom() =~= before.labels(stream@).dom().insert(label@));
            if has_event(before.events(stream@), at.0) {
                assert forall|s: Seq<char>, other: Seq<char>|
                    s != stream@ || other != label@ implies #[trigger] after.labels(s)[other]
                    == before.labels(s)[other] by {
                    if s != stream@ {
                        assert(after.labels(s) == before.labels(s));
                    }
                }
            }
        }
    }

    /// A label that is removed is gone, and it is said whether there was one. No event
    /// changes, and no other stream.
    pub proof fn a_label_is_gone_once_removed()
        ensures
            forall|
                store: &mut Self,
                stream: &StreamId,
                label: &Label,
                r: Result<bool, StoreError>,
            | #[trigger]
                call_ensures(Store::<E, C, K>::label_delete, (store, stream, label), r)
                    && store.reliable() ==> {
                    let before = store.log();
                    let after = (*final(store)).log();
                    &&& r == Ok::<bool, StoreError>(
                        before.labels(stream@).dom().contains(label@),
                    )
                    &&& after.labels(stream@) == before.labels(stream@).remove(label@)
                    &&& forall|s: Seq<char>|
                        s != stream@ ==> #[trigger] after.labels(s) == before.labels(s)
                    &&& forall|s: Seq<char>| #[trigger] after.events(s) == before.events(s)
                },
    {
        assert forall|
            store: &mut Self,
            stream: &StreamId,
            label: &Label,
            r: Result<bool, StoreError>,
        | #[trigger]
            call_ensures(Store::<E, C, K>::label_delete, (store, stream, label), r)
                && store.reliable() implies {
            let before = store.log();
            let after = (*final(store)).log();
            &&& r == Ok::<bool, StoreError>(before.labels(stream@).dom().contains(label@))
            &&& after.labels(stream@) == before.labels(stream@).remove(label@)
            &&& forall|s: Seq<char>|
                s != stream@ ==> #[trigger] after.labels(s) == before.labels(s)
            &&& forall|s: Seq<char>| #[trigger] after.events(s) == before.events(s)
        } by {
            let before = store.log();
            labels_keep_events(before, stream@, before.labels(stream@).remove(label@));
            if !before.labels(stream@).dom().contains(label@) {
                assert(before.labels(stream@).remove(label@) =~= before.labels(stream@));
            }
        }
    }

    /// Pruning keeps of one stream as many cached states as it was asked to, the latest,
    /// and of every other stream all.
    pub proof fn pruning_keeps_as_many_as_asked_for()
        ensures
            forall|
                store: &mut Self,
                stream: &StreamId,
                keep: usize,
                r: Result<(), StoreError>,
            | #[trigger]
                call_ensures(Store::<E, C, K>::prune_cache, (store, stream, keep), r)
                    && store.cache().reliable() ==> {
                    let before = store.entries(stream@);
                    let after = (*final(store)).entries(stream@);
                    &&& r is Ok
                    &&& after.submap_of(before)
                    &&& after.dom().len() == if before.dom().len() <= keep {
                        before.dom().len()
                    } else {
                        keep as nat
                    }
                    &&& forall|gone: u64, kept: u64|
                        before.dom().contains(gone) && !after.dom().contains(gone)
                            && after.dom().contains(kept) ==> gone < kept
                    &&& forall|s: Seq<char>|
                        s != stream@ ==> #[trigger] (*final(store)).entries(s) == store.entries(s)
                    &&& (*final(store)).log() == store.log()
                },
    {
    }

    /// A rebuild starts from the beginning. A catch-up goes on from the checkpoints,
    /// except for a sink that keeps its state in memory and was not caught up yet. Neither
    /// touches the log or the cache.
    pub proof fn a_rebuild_starts_over_and_a_catch_up_goes_on()
        ensures
            forall|
                store: &mut Self,
                sink_id: &str,
                r: Result<CatchUpReport, StoreError>,
            | #[trigger]
                call_ensures(Store::<E, C, K>::rebuild, (store, sink_id), r) ==> {
                    &&& (*final(store)).catch_up_effect(&*store, sink_id@, true, r)
                    &&& (*final(store)).log() == store.log()
                    &&& (*final(store)).cache() == store.cache()
                },
            forall|
                store: &mut Self,
                sink_id: &str,
                r: Result<CatchUpReport, StoreError>,
            | #[trigger]
                call_ensures(Store::<E, C, K>::catch_up, (store, sink_id), r) ==> {
                    &&& (*final(store)).catch_up_effect(
                        &*store,
                        sink_id@,
                        (store.dispatcher().first_named(sink_id@) matches Some(i)
                            && store.dispatcher().sinks()[i].starts_empty())
                            && !store.dispatcher().caught_up().contains(sink_id@),
                        r,
                    )
                    &&& (*final(store)).log() == store.log()
                    &&& (*final(store)).cache() == store.cache()
                },
    {
    }

    /// A sink whose id is taken is not attached; any other comes last, after those that
    /// are there, and is caught up; it starts from the beginning if it keeps its state in
    /// memory.
    pub proof fn a_sink_is_attached_once()
        ensures
            forall|args: (&mut Self, Arc<dyn ProjectionSink>), r: Result<(), StoreError>|
                #[trigger]
                call_ensures(Store::<E, C, K>::attach_sink, args, r) ==> {
                    let store = args.0;
                    let sink = args.1;
                    let before = store.dispatcher().sinks();
                    let after = (*final(store)).dispatcher().sinks();
                    if has_name(before, sink.name()) {
                        &&& r matches Err(e) && e@ == ErrorView::SinkAlreadyAttached(sink.name())
                        &&& after == before
                        &&& (*final(store)).marks() == store.marks()
                    } else {
                        &&& after.len() == before.len() + 1
                        &&& after.last() == sink
                        &&& after.drop_last() == before
                        &&& store.reliable() ==> r is Ok
                        &&& r is Ok ==> exists|report: ReportView| #[trigger]
                            (*final(store)).catches_up(
                                before.len() as int,
                                sink.starts_empty(),
                                store.marks(),
                                (*final(store)).marks(),
                                report,
                            )
                    }
                },
    {
    }

    /// Nothing is handed to a sink that is not there.
    pub proof fn nothing_goes_to_an_unknown_sink(
        &self,
        stream: &StreamId,
        sink_id: &str,
        at: Option<SeqNo>,
        r: Result<SeqNo, StoreError>,
    )
        requires
            self.wf(),
            call_ensures(
                Store::<E, C, K>::materialize_to_sink,
                (self, stream, sink_id, at),
                r,
            ),
        ensures
            !has_name(self.dispatcher().sinks(), sink_id@) ==> (r matches Err(e) && e@
                == ErrorView::UnknownSink(sink_id@)),
            has_name(self.dispatcher().sinks(), sink_id@) && self.reliable() ==> (
            self.dispatcher().first_named(sink_id@) matches Some(i) && self.handed_over(
                i,
                stream@,
                at,
                r,
            )),
    {
    }
}

} // verus!
