//! Labels: names for coordinates.
use vstd::prelude::*;

use crate::backend::{in_name_order, label_map, CacheBackend, CheckpointBackend, EventBackend};
use crate::dispatcher::{label_announced, unlabel_announced};
use crate::error::{ErrorView, StoreError};
use crate::event::{event_views, EventView};
use crate::faults::{
    label_delete_may_fail, label_resolve_may_fail, label_set_may_fail, labels_may_fail,
};
use crate::id::{Label, SeqNo, StreamId};
use crate::log::{coordinates_are_contiguous, has_event, since, LogView};
use crate::sink::DeliveryView;
use crate::state::StateResult;
use crate::store::read::shown_is_gap_free;
use crate::store::Store;

verus! {

/// Labels do not touch events.
pub proof fn labels_keep_events(log: LogView, stream: Seq<char>, labels: Map<Seq<char>, u64>)
    ensures
        forall|s: Seq<char>| #[trigger]
            log.relabelled(stream, labels).events(s) == log.events(s),
        forall|s: Seq<char>|
            s != stream ==> #[trigger] log.relabelled(stream, labels).labels(s) == log.labels(s),
        log.relabelled(stream, labels).labels(stream) == labels,
{
}

/// A label that was removed is gone, so that there is nothing left to remove. No
/// event, no head and no other label changes.
pub proof fn a_removed_label_is_gone(log: LogView, stream: Seq<char>, label: Seq<char>)
    ensures
        ({
            let after = log.relabelled(stream, log.labels(stream).remove(label));
            &&& !after.labels(stream).dom().contains(label)
            &&& forall|s: Seq<char>, other: Seq<char>|
                s != stream || other != label ==> (#[trigger] after.labels(s).dom().contains(other)
                    == log.labels(s).dom().contains(other)) && after.labels(s)[other] == log.labels(
                    s,
                )[other]
            &&& forall|s: Seq<char>| #[trigger] after.events(s) == log.events(s)
            &&& forall|s: Seq<char>| #[trigger] after.head(s) == log.head(s)
        }),
{
    labels_keep_events(log, stream, log.labels(stream).remove(label));
    let after = log.relabelled(stream, log.labels(stream).remove(label));
    assert forall|s: Seq<char>, other: Seq<char>| s != stream || other != label implies (#[trigger]
    after.labels(s).dom().contains(other) == log.labels(s).dom().contains(other))
        && after.labels(s)[other] == log.labels(s)[other] by {
        if s != stream {
            assert(after.labels(s) == log.labels(s));
        }
    }
    assert forall|s: Seq<char>| #[trigger] after.head(s) == log.head(s) by {
        assert(after.events(s) == log.events(s));
    }
}

impl<E: EventBackend, C: CacheBackend, K: CheckpointBackend> Store<E, C, K> {
    /// The event of `stream` at coordinate `at`, as it is read.
    pub open spec fn event_at(&self, stream: Seq<char>, at: u64) -> EventView {
        since(self.events_of(stream), at as int)[0]
    }

    /// Point `label` at coordinate `at` of `stream`, and tell the sinks.
    pub fn label_set(&mut self, stream: &StreamId, label: &Label, at: SeqNo) -> (r: Result<
        (),
        StoreError,
    >)
        requires
            old(self).wf(),
        ensures
            final(self).wf(),
            final(self).same_setup(old(self)),
            final(self).dispatcher() == old(self).dispatcher(),
            final(self).cache() == old(self).cache(),
            // The label moves if there is an event; otherwise nothing changes.
            final(self).log() == old(self).log() || (has_event(
                old(self).log().events(stream@),
                at.0,
            ) && final(self).log() == old(self).log().relabelled(
                stream@,
                old(self).log().labels(stream@).insert(label@, at.0),
            )),
            r is Ok ==> final(self).log().labels(stream@).dom().contains(label@)
                && final(self).log().labels(stream@)[label@] == at.0,
            old(self).reliable() && !has_event(old(self).log().events(stream@), at.0) ==> {
                &&& final(self).log() == old(self).log()
                &&& r matches Err(e) && e@ == (ErrorView::SeqOutOfRange {
                    head: match old(self).log().head(stream@) {
                        Some(h) => Some(SeqNo(h)),
                        None => None,
                    },
                    requested: at,
                })
            },
            // Sinks learn of it with the state and the event at the coordinate.
            old(self).reliable() && has_event(old(self).log().events(stream@), at.0) ==> {
                &&& final(self).log() == old(self).log().relabelled(
                    stream@,
                    old(self).log().labels(stream@).insert(label@, at.0),
                )
                &&& if old(self).dispatcher().sinks().len() == 0 {
                    r is Ok
                } else {
                    match old(self).answer_at(stream@, at.0) {
                        Ok(state) => r is Ok && label_announced(
                            old(self).dispatcher().sinks(),
                            old(self).dispatcher().observer(),
                            label@,
                            DeliveryView {
                                stream: stream@,
                                seq: at.0,
                                state,
                                event: old(self).event_at(stream@, at.0),
                            },
                        ),
                        Err(error) => r matches Err(e) && e@ == error,
                    }
                }
            },
            // Either the label could not be set, or the state for the sinks could
            // not be had.
            r matches Err(e) ==> (final(self).log() == old(self).log() && label_set_may_fail(
                old(self).events().inner,
                stream@,
                label@,
                at,
                e@,
            )) || (old(self).dispatcher().sinks().len() > 0 && (old(self).answer_at(stream@, at.0)
                == StateResult::Err(e@) || final(self).state_may_fail(stream@, at, e@))),
    {
        let ghost before = *self;
        proof {
            shown_is_gap_free(self, stream@);
            labels_keep_events(
                self.log(),
                stream@,
                self.log().labels(stream@).insert(label@, at.0),
            );
        }
        match self.events.inner.label_set(stream, label, at) {
            Ok(_) => {},
            Err(e) => {
                return Err(e);
            },
        }
        proof {
            assert(self.events_of(stream@) == before.events_of(stream@));
        }
        if self.dispatcher.has_sinks() {
            let state = match self.state_at(stream, at) {
                Ok(state) => state,
                Err(e) => {
                    return Err(e);
                },
            };
            match self.events.read(stream, at, 1) {
                Ok(found) => {
                    if found.len() > 0 {
                        proof {
                            let shown = self.events_of(stream@);
                            let stored = before.log().events(stream@);
                            coordinates_are_contiguous(stored, at.0);
                            assert(shown[0].seq == stored[0].seq);
                            assert(shown.last().seq == stored.last().seq);
                            assert(shown[shown.len() - 1] == shown.last());
                            assert(event_views(found@)[0] == found@[0]@);
                            assert(found@[0]@ == self.event_at(stream@, at.0));
                        }
                        self.dispatcher.dispatch_label_set(stream, label, at, &state, &found[0]);
                    } else {
                        proof {
                            let shown = self.events_of(stream@);
                            let stored = before.log().events(stream@);
                            coordinates_are_contiguous(stored, at.0);
                            assert(shown[0].seq == stored[0].seq);
                            assert(shown.last().seq == stored.last().seq);
                            assert(shown[shown.len() - 1] == shown.last());
                            assert(event_views(found@).len() == 0);
                        }
                    }
                },
                Err(_) => {},
            }
        }
        Ok(())
    }

    /// The coordinate that `label` points at.
    pub fn label_resolve(&self, stream: &StreamId, label: &Label) -> (r: Result<SeqNo, StoreError>)
        requires
            self.wf(),
        ensures
            r matches Ok(seq) ==> self.log().labels(stream@).dom().contains(label@)
                && self.log().labels(stream@)[label@] == seq.0,
            self.reliable() && self.log().labels(stream@).dom().contains(label@) ==> r is Ok,
            self.reliable() && !self.log().labels(stream@).dom().contains(label@) ==> {
                r matches Err(e) && e@ == ErrorView::UnknownLabel(label@)
            },
            r matches Err(e) ==> (!self.log().labels(stream@).dom().contains(label@) && e@
                == ErrorView::UnknownLabel(label@)) || label_resolve_may_fail(
                self.events().inner,
                stream@,
                label@,
                e@,
            ),
    {
        match self.events.inner.label_resolve(stream, label) {
            Ok(Some(seq)) => Ok(seq),
            Ok(None) => Err(StoreError::UnknownLabel(label.as_str().to_owned())),
            Err(e) => Err(e),
        }
    }

    /// The labels of `stream`, by name.
    pub fn labels(&self, stream: &StreamId) -> (r: Result<Vec<(Label, SeqNo)>, StoreError>)
        requires
            self.wf(),
        ensures
            r matches Ok(pairs) ==> in_name_order(pairs@) && label_map(pairs@)
                == self.log().labels(stream@),
            self.reliable() ==> r is Ok,
            r matches Err(e) ==> labels_may_fail(self.events().inner, stream@, e@),
    {
        self.events.inner.labels(stream)
    }

    /// Remove `label` from `stream`, and tell the sinks if it was there.
    pub fn label_delete(&mut self, stream: &StreamId, label: &Label) -> (r: Result<
        bool,
        StoreError,
    >)
        requires
            old(self).wf(),
        ensures
            final(self).wf(),
            final(self).same_setup(old(self)),
            final(self).dispatcher() == old(self).dispatcher(),
            final(self).cache() == old(self).cache(),
            match r {
                Ok(existed) => {
                    &&& existed == old(self).log().labels(stream@).dom().contains(label@)
                    &&& existed ==> final(self).log() == old(self).log().relabelled(
                        stream@,
                        old(self).log().labels(stream@).remove(label@),
                    )
                    &&& existed ==> unlabel_announced(
                        old(self).dispatcher().sinks(),
                        old(self).dispatcher().observer(),
                        stream@,
                        label@,
                    )
                    &&& !existed ==> final(self).log() == old(self).log()
                },
                Err(e) => final(self).log() == old(self).log() && label_delete_may_fail(
                    old(self).events().inner,
                    stream@,
                    label@,
                    e@,
                ),
            },
            old(self).reliable() ==> r is Ok,
    {
        let existed = match self.events.inner.label_delete(stream, label) {
            Ok(existed) => existed,
            Err(e) => {
                return Err(e);
            },
        };
        if existed && self.dispatcher.has_sinks() {
            self.dispatcher.dispatch_label_deleted(stream, label);
        }
        Ok(existed)
    }
}

} // verus!
