//! Reading: states, events, heads and streams.
use vstd::prelude::*;

use crate::backend::{
    lists_streams, nearest_is_unique, nearest_of, CacheBackend, CheckpointBackend, Entries,
    EventBackend,
};
use crate::error::{ErrorView, StoreError};
use crate::event::{event_views, Event, EventView};
use crate::faults::{
    boundary_may_fail, head_may_fail, nearest_may_fail, read_by_meta_may_fail, read_may_fail,
    seq_at_time_may_fail, streams_may_fail,
};
use crate::id::{SeqNo, StreamId, Timestamp};
use crate::json::json_text;
use crate::log::{at_most, count_before, gap_free, head_of, seq_not_after, since, until, with_meta};
use crate::state::{empty_state, empty_text, replay, replay_from, state_result, StateResult};
use crate::store::{Store, TOMBSTONE_KIND};
use crate::text::same_text;
use crate::upcaster::upcast_events;

verus! {

/// The events after coordinate `after` and up to coordinate `at`.
pub open spec fn between(events: Seq<EventView>, after: int, at: int) -> Seq<EventView> {
    events.subrange(count_before(events, after + 1), count_before(events, at + 1))
}

/// The state that the log alone gives for coordinate `at`: every patch up to
/// there, applied to nothing.
pub open spec fn history(events: Seq<EventView>, at: int) -> StateResult {
    replay(empty_text(), until(events, at))
}

/// The state of a stream at `at`: from the nearest cached state on, or from the
/// beginning.
pub open spec fn state_from_cache(events: Seq<EventView>, entries: Entries, at: u64) -> StateResult {
    match nearest_of(entries, at) {
        Some((seq, state)) => replay(state, between(events, seq as int, at as int)),
        None => history(events, at as int),
    }
}

/// What a request for the state at `at` is answered.
pub open spec fn state_answer(
    stream: Seq<char>,
    events: Seq<EventView>,
    boundary: Option<u64>,
    entries: Entries,
    at: u64,
) -> StateResult {
    match head_of(events) {
        None => Err(ErrorView::UnknownStream(stream)),
        Some(head) => if at > head {
            Err(ErrorView::SeqOutOfRange { head: Some(SeqNo(head)), requested: SeqNo(at) })
        } else {
            match boundary {
                Some(b) => if at < b {
                    Err(ErrorView::SeqCompacted { boundary: SeqNo(b), requested: SeqNo(at) })
                } else {
                    state_from_cache(events, entries, at)
                },
                None => state_from_cache(events, entries, at),
            }
        },
    }
}

/// What a request for the current state is answered.
pub open spec fn current_answer(
    stream: Seq<char>,
    events: Seq<EventView>,
    boundary: Option<u64>,
    entries: Entries,
) -> StateResult {
    match head_of(events) {
        None => Ok(empty_text()),
        Some(head) => state_answer(stream, events, boundary, entries, head),
    }
}

/// Whether the last event says that the stream is deleted.
pub open spec fn tombstoned(events: Seq<EventView>) -> bool {
    events.len() > 0 && events.last().kind == TOMBSTONE_KIND@
}

/// Upcasting moves no event, so what is read is without gaps too.
pub(crate) proof fn shown_is_gap_free<E: EventBackend, C: CacheBackend, K: CheckpointBackend>(
    store: &Store<E, C, K>,
    stream: Seq<char>,
)
    requires
        store.wf(),
    ensures
        gap_free(store.events_of(stream)),
        gap_free(store.log().events(stream)),
        head_of(store.events_of(stream)) == store.log().head(stream),
        store.events_of(stream).len() == store.log().events(stream).len(),
        store.boundary(stream) matches Some(b) ==> store.events_of(stream).len() > 0
            && store.events_of(stream)[0].seq == b,
        store.boundary(stream) is None && store.events_of(stream).len() > 0
            ==> store.events_of(stream)[0].seq == 1,
{
    store.events.inner.wf_facts();
    let stored = store.log().events(stream);
    let shown = store.events_of(stream);
    assert(gap_free(stored));
    assert(shown.len() == stored.len());
    assert forall|i: int| 0 <= i < shown.len() implies (#[trigger] shown[i]).seq == shown[0].seq
        + i by {
        assert(shown[i].seq == stored[i].seq);
        assert(shown[0].seq == stored[0].seq);
    }
    if shown.len() > 0 {
        assert(shown[0].seq == stored[0].seq);
        assert(shown.last().seq == stored.last().seq);
    }
}

impl<E: EventBackend, C: CacheBackend, K: CheckpointBackend> Store<E, C, K> {
    /// What a request for the state of `stream` at `at` is answered.
    pub open spec fn answer_at(&self, stream: Seq<char>, at: u64) -> StateResult {
        state_answer(
            stream,
            self.events_of(stream),
            self.boundary(stream),
            self.entries(stream),
            at,
        )
    }

    /// What a request for the current state of `stream` is answered.
    pub open spec fn answer_now(&self, stream: Seq<char>) -> StateResult {
        current_answer(
            stream,
            self.events_of(stream),
            self.boundary(stream),
            self.entries(stream),
        )
    }

    /// The storage may fail with `error` while the state of `stream` at `at` is
    /// read.
    pub open spec fn state_may_fail(
        &self,
        stream: Seq<char>,
        at: SeqNo,
        error: ErrorView,
    ) -> bool {
        ||| head_may_fail(self.events().inner, stream, error)
        ||| boundary_may_fail(self.events().inner, stream, error)
        ||| nearest_may_fail(self.cache(), stream, at, error)
        ||| exists|from: SeqNo, limit: usize| #[trigger]
            read_may_fail(self.events().inner, stream, from, limit, error)
    }

    /// The storage may fail with `error` while the current state of `stream` is
    /// read.
    pub open spec fn current_may_fail(&self, stream: Seq<char>, error: ErrorView) -> bool {
        ||| head_may_fail(self.events().inner, stream, error)
        ||| (self.log().head(stream) matches Some(head) && self.state_may_fail(
            stream,
            SeqNo(head),
            error,
        ))
    }

    /// The current state of `stream`; JSON null for a stream without events.
    pub fn state(&self, stream: &StreamId) -> (r: Result<serde_json::Value, StoreError>)
        requires
            self.wf(),
        ensures
            r is Ok || self.reliable() ==> state_result(r) == self.answer_now(stream@),
            r matches Err(e) ==> self.answer_now(stream@) == StateResult::Err(e@)
                || self.current_may_fail(stream@, e@),
    {
        proof {
            shown_is_gap_free(self, stream@);
        }
        match self.events.inner.head(stream) {
            Ok(Some(head)) => self.state_at(stream, head),
            Ok(None) => Ok(empty_state()),
            Err(e) => Err(e),
        }
    }

    /// The state of `stream` at coordinate `at`, built from the nearest cached
    /// state and the patches after it.
    pub fn state_at(&self, stream: &StreamId, at: SeqNo) -> (r: Result<
        serde_json::Value,
        StoreError,
    >)
        requires
            self.wf(),
        ensures
            r is Ok || self.reliable() ==> state_result(r) == self.answer_at(stream@, at.0),
            r matches Err(e) ==> self.answer_at(stream@, at.0) == StateResult::Err(e@)
                || self.state_may_fail(stream@, at, e@),
    {
        let ghost shown = self.events_of(stream@);
        proof {
            shown_is_gap_free(self, stream@);
        }
        let head = match self.events.inner.head(stream) {
            Ok(Some(head)) => head,
            Ok(None) => {
                return Err(StoreError::UnknownStream(stream.clone()));
            },
            Err(e) => {
                return Err(e);
            },
        };
        if at.0 > head.0 {
            return Err(StoreError::SeqOutOfRange { head: Some(head), requested: at });
        }
        match self.events.inner.compaction_boundary(stream) {
            Ok(Some(boundary)) => {
                if at.0 < boundary.0 {
                    return Err(StoreError::SeqCompacted { boundary, requested: at });
                }
            },
            Ok(None) => {},
            Err(e) => {
                return Err(e);
            },
        }
        let (base, from) = match self.cache.nearest(stream, at) {
            Ok(Some((seq, state))) => {
                proof {
                    nearest_is_unique(
                        self.entries(stream@),
                        at.0,
                        Some((seq.0, json_text(state))),
                    );
                }
                (state, seq.next())
            },
            Ok(None) => {
                proof {
                    nearest_is_unique(self.entries(stream@), at.0, None);
                }
                (empty_state(), SeqNo::zero().next())
            },
            Err(e) => {
                return Err(e);
            },
        };
        let ghost wanted = between(shown, from.0 - 1, at.0 as int);
        proof {
            assert(nearest_of(self.entries(stream@), at.0) is None ==> wanted =~= until(
                shown,
                at.0 as int,
            ));
        }
        if from.0 > at.0 {
            proof {
                assert(wanted =~= Seq::<EventView>::empty());
            }
            return Ok(base);
        }
        let span: u64 = at.0 - from.0 + 1;
        let limit: usize = if span > usize::MAX as u64 {
            usize::MAX
        } else {
            span as usize
        };
        let mut events = match self.events.read(stream, from, limit) {
            Ok(events) => events,
            Err(e) => {
                return Err(e);
            },
        };
        // A compacted stream starts at its boundary, so a page that was asked
        // for from the beginning can reach past `at`.
        let ghost page = at_most(since(shown, from.0 as int), limit as int);
        let ghost full = events@;
        let mut kept: usize = 0;
        while kept < events.len() && events[kept].seq.0 <= at.0
            invariant
                kept <= events@.len(),
                forall|j: int| 0 <= j < kept ==> (#[trigger] events@[j]).seq.0 <= at.0,
            decreases events@.len() - kept,
        {
            kept = kept + 1;
        }
        events.truncate(kept);
        proof {
            assert(event_views(full) == page);
            assert(event_views(full).len() == full.len());
            let start = count_before(shown, from.0 as int);
            let end = count_before(shown, at.0 + 1);
            assert(start <= end);
            assert forall|j: int| 0 <= j < page.len() implies (#[trigger] page[j]).seq
                == full[j].seq.0 && page[j] == shown[start + j] && page[j].seq == shown[0].seq
                + start + j by {
                assert(event_views(full)[j] == full[j]@);
                assert(shown[start + j].seq == shown[0].seq + start + j);
            }
            assert(shown[shown.len() - 1] == shown.last());
            assert(kept == end - start) by {
                if kept < full.len() {
                    assert(page[kept as int].seq == full[kept as int].seq.0);
                }
                if kept > 0 {
                    assert(page[kept - 1].seq == full[kept - 1].seq.0);
                }
            }
            assert(events@ =~= full.take(kept as int));
            assert(wanted.len() == kept);
            assert forall|j: int| 0 <= j < kept implies event_views(events@)[j] == wanted[j] by {
                assert(event_views(events@)[j] == full[j]@);
                assert(event_views(full)[j] == full[j]@);
            }
            assert(event_views(events@) =~= wanted);
        }
        replay_from(base, events.as_slice())
    }

    /// The events of `stream` from coordinate `from` on, at most `limit` of them,
    /// in the current shape.
    pub fn read(&self, stream: &StreamId, from: SeqNo, limit: usize) -> (r: Result<
        Vec<Event>,
        StoreError,
    >)
        requires
            self.wf(),
        ensures
            r matches Ok(events) ==> event_views(events@) == at_most(
                since(self.events_of(stream@), from.0 as int),
                limit as int,
            ),
            self.reliable() ==> r is Ok,
            r matches Err(e) ==> read_may_fail(self.events().inner, stream@, from, limit, e@),
    {
        self.events.read(stream, from, limit)
    }

    /// The events of `stream` from coordinate `from` on whose attribution has a
    /// member `field` equal to `value`, at most `limit` of them. They are chosen
    /// as they are stored, and handed out in the current shape.
    pub fn read_by_meta(
        &self,
        stream: &StreamId,
        field: &str,
        value: &serde_json::Value,
        from: SeqNo,
        limit: usize,
    ) -> (r: Result<Vec<Event>, StoreError>)
        requires
            self.wf(),
        ensures
            r matches Ok(events) ==> event_views(events@) == upcast_events(
                self.events().upcasters@,
                at_most(
                    with_meta(
                        since(self.log().events(stream@), from.0 as int),
                        field@,
                        json_text(*value),
                    ),
                    limit as int,
                ),
            ),
            self.reliable() ==> r is Ok,
            r matches Err(e) ==> read_by_meta_may_fail(
                self.events().inner,
                stream@,
                field@,
                json_text(*value),
                from,
                limit,
                e@,
            ),
    {
        self.events.read_by_meta(stream, field, value, from, limit)
    }

    /// Coordinate of the last event of `stream`.
    pub fn head(&self, stream: &StreamId) -> (r: Result<Option<SeqNo>, StoreError>)
        requires
            self.wf(),
        ensures
            r matches Ok(head) ==> match head {
                Some(h) => self.log().head(stream@) == Some(h.0),
                None => self.log().head(stream@) is None,
            },
            self.reliable() ==> r is Ok,
            r matches Err(e) ==> head_may_fail(self.events().inner, stream@, e@),
    {
        self.events.inner.head(stream)
    }

    /// The greatest coordinate whose event is not later than `at`.
    pub fn seq_at_time(&self, stream: &StreamId, at: Timestamp) -> (r: Result<
        Option<SeqNo>,
        StoreError,
    >)
        requires
            self.wf(),
        ensures
            r matches Ok(seq) ==> match seq {
                Some(s) => seq_not_after(self.log().events(stream@), at.0) == Some(s.0),
                None => seq_not_after(self.log().events(stream@), at.0) is None,
            },
            self.reliable() ==> r is Ok,
            r matches Err(e) ==> seq_at_time_may_fail(self.events().inner, stream@, at, e@),
    {
        self.events.inner.seq_at_time(stream, at)
    }

    /// The streams that have events.
    pub fn streams(&self) -> (r: Result<Vec<StreamId>, StoreError>)
        requires
            self.wf(),
        ensures
            r matches Ok(names) ==> lists_streams(self.log(), names@),
            self.reliable() ==> r is Ok,
            r matches Err(e) ==> streams_may_fail(self.events().inner, e@),
    {
        self.events.inner.streams()
    }

    /// The storage may fail with `error` while the last event of `stream` is read.
    pub open spec fn last_may_fail(&self, stream: Seq<char>, error: ErrorView) -> bool {
        ||| head_may_fail(self.events().inner, stream, error)
        ||| (self.log().head(stream) matches Some(head) && read_may_fail(
            self.events().inner,
            stream,
            SeqNo(head),
            1,
            error,
        ))
    }

    /// Whether `stream` has events, the last of which does not say that it is
    /// deleted.
    fn is_live(&self, stream: &StreamId) -> (r: Result<bool, StoreError>)
        requires
            self.wf(),
        ensures
            r matches Ok(live) ==> live == self.live(stream@),
            self.reliable() ==> r is Ok,
            r matches Err(e) ==> self.last_may_fail(stream@, e@),
    {
        let ghost shown = self.events_of(stream@);
        proof {
            shown_is_gap_free(self, stream@);
        }
        match self.events.inner.head(stream) {
            Ok(Some(head)) => match self.events.read(stream, head, 1) {
                Ok(last) => {
                    proof {
                        assert(shown[shown.len() - 1] == shown.last());
                        assert(event_views(last@) =~= seq![shown.last()]);
                        assert(event_views(last@)[0] == last@[0]@);
                    }
                    Ok(!same_text(last[0].kind.as_str(), TOMBSTONE_KIND))
                },
                Err(e) => Err(e),
            },
            Ok(None) => Ok(false),
            Err(e) => Err(e),
        }
    }

    /// Whether `stream` has events, the last of which does not say that it is
    /// deleted.
    pub open spec fn live(&self, stream: Seq<char>) -> bool {
        self.log().known(stream) && !tombstoned(self.events_of(stream))
    }

    /// The names in `names` are exactly the live streams, each once.
    pub open spec fn lists_live(&self, names: Seq<StreamId>) -> bool {
        &&& forall|i: int| 0 <= i < names.len() ==> self.live(#[trigger] names[i]@)
        &&& forall|stream: Seq<char>| #[trigger]
            self.live(stream) ==> exists|i: int|
                0 <= i < names.len() && #[trigger] names[i]@ == stream
        &&& forall|i: int, j: int|
            0 <= i < j < names.len() ==> #[trigger] names[i]@ != #[trigger] names[j]@
    }

    /// The streams whose last event does not say that they are deleted.
    pub fn streams_live(&self) -> (r: Result<Vec<StreamId>, StoreError>)
        requires
            self.wf(),
        ensures
            r matches Ok(names) ==> self.lists_live(names@),
            self.reliable() ==> r is Ok,
            r matches Err(e) ==> streams_may_fail(self.events().inner, e@) || exists|
                stream: Seq<char>,
            | #[trigger]
                self.log().known(stream) && self.last_may_fail(stream, e@),
    {
        let all = match self.events.inner.streams() {
            Ok(all) => all,
            Err(e) => {
                return Err(e);
            },
        };
        let mut out: Vec<StreamId> = Vec::new();
        let ghost mut origin: Seq<int> = Seq::empty();
        let mut i: usize = 0;
        while i < all.len()
            invariant
                self.wf(),
                i <= all@.len(),
                lists_streams(self.log(), all@),
                origin.len() == out@.len(),
                forall|k: int|
                    0 <= k < out@.len() ==> 0 <= #[trigger] origin[k] < i && out@[k]@
                        == all@[origin[k]]@ && self.live(out@[k]@),
                forall|k: int, l: int|
                    0 <= k < l < origin.len() ==> #[trigger] origin[k] < #[trigger] origin[l],
                forall|j: int|
                    0 <= j < i && self.live(#[trigger] all@[j]@) ==> exists|k: int|
                        0 <= k < origin.len() && #[trigger] origin[k] == j,
            decreases all@.len() - i,
        {
            let live = match self.is_live(&all[i]) {
                Ok(live) => live,
                Err(e) => {
                    proof {
                        assert(self.log().known(all@[i as int]@));
                    }
                    return Err(e);
                },
            };
            if live {
                let ghost earlier = origin;
                let ghost listed = out@;
                out.push(all[i].clone());
                proof {
                    origin = earlier.push(i as int);
                    assert forall|k: int| 0 <= k < out@.len() implies 0 <= #[trigger] origin[k] < i
                        + 1 && out@[k]@ == all@[origin[k]]@ && self.live(out@[k]@) by {
                        if k < listed.len() {
                            assert(origin[k] == earlier[k]);
                            assert(out@[k] == listed[k]);
                        } else {
                            assert(origin[k] == i);
                        }
                    }
                    assert forall|j: int|
                        0 <= j < i + 1 && self.live(#[trigger] all@[j]@) implies exists|k: int|
                        0 <= k < origin.len() && #[trigger] origin[k] == j by {
                        if j < i {
                            let k = choose|k: int|
                                0 <= k < earlier.len() && #[trigger] earlier[k] == j;
                            assert(origin[k] == j);
                        } else {
                            assert(origin[earlier.len() as int] == j);
                        }
                    }
                }
            }
            i = i + 1;
        }
        proof {
            assert forall|k: int| 0 <= k < out@.len() implies self.live(#[trigger] out@[k]@) by {
                assert(origin[k] < i);
            }
            assert forall|stream: Seq<char>| #[trigger] self.live(stream) implies exists|k: int|
                0 <= k < out@.len() && #[trigger] out@[k]@ == stream by {
                let j = choose|j: int| 0 <= j < all@.len() && #[trigger] all@[j]@ == stream;
                let k = choose|k: int| 0 <= k < origin.len() && #[trigger] origin[k] == j;
                assert(out@[k]@ == stream);
            }
            assert forall|k: int, l: int| 0 <= k < l < out@.len() implies #[trigger] out@[k]@
                != #[trigger] out@[l]@ by {
                assert(origin[k] < origin[l]);
                assert(all@[origin[k]]@ != all@[origin[l]]@);
            }
        }
        Ok(out)
    }
}

} // verus!
