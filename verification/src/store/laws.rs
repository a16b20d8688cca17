//! What holds of a store across its operations.
use vstd::prelude::*;

use crate::backend::{
    head_is, is_nearest, nearest_of, CacheBackend, CheckpointBackend, Entries, EventBackend,
};
use crate::error::{ErrorView, StoreError};
use crate::event::{Committed, DraftView, EventView};
use crate::gate::CandidateView;
use crate::id::{SeqNo, StreamId};
use crate::json::{changes_nothing, leads_to, patched, same_json};
use crate::log::{
    at_most, coordinates_are_contiguous, count_before, gap_free, has_event, next_of, since, until,
};
use crate::state::{empty_text, replay, replay_in_two_steps, StateResult};
use crate::store::read::{between, history, shown_is_gap_free, state_answer, state_from_cache};
use crate::store::write::passes;
use crate::store::{Store, TOMBSTONE_KIND, WriteMode};
use crate::upcaster::upcast_through;

verus! {

/// Every cached state is the state that the log gives for its coordinate.
pub open spec fn coherent(events: Seq<EventView>, entries: Entries) -> bool {
    forall|at: u64| #[trigger]
        entries.dom().contains(at) ==> {
            &&& events.len() > 0
            &&& events[0].seq <= at <= events.last().seq
            &&& history(events, at as int) == StateResult::Ok(entries[at])
        }
}

/// The cache makes no difference: from a cached state on, the log leads to the
/// state that it leads to from the beginning.
pub proof fn cache_makes_no_difference(events: Seq<EventView>, entries: Entries, at: u64)
    requires
        gap_free(events),
        coherent(events, entries),
        entries.dom().finite(),
    ensures
        state_from_cache(events, entries, at) == history(events, at as int),
{
    nearest_exists(entries, at);
    match nearest_of(entries, at) {
        Some((seq, state)) => {
            assert(entries.dom().contains(seq));
            let first = until(events, seq as int);
            let rest = between(events, seq as int, at as int);
            assert(until(events, at as int) =~= first + rest);
            replay_in_two_steps(empty_text(), first, rest);
        },
        None => {},
    }
}

/// A finite cache has a nearest entry, or none that does not exceed `at`.
proof fn nearest_exists(entries: Entries, at: u64)
    requires
        entries.dom().finite(),
    ensures
        is_nearest(entries, at, nearest_of(entries, at)),
{
    let below = entries.dom().filter(|seq: u64| seq <= at);
    if below.len() == 0 {
        assert forall|other: u64| #[trigger] entries.dom().contains(other) implies other > at by {
            if other <= at {
                assert(below.contains(other));
            }
        }
        assert(is_nearest(entries, at, None));
    } else {
        let top = greatest(below);
        assert forall|other: u64| #[trigger] entries.dom().contains(other) && other
            <= at implies other <= top by {
            assert(below.contains(other));
        }
        assert(is_nearest(entries, at, Some((top, entries[top]))));
    }
}

/// A finite set of numbers that is not empty has a greatest one.
proof fn greatest(set: Set<u64>) -> (top: u64)
    requires
        set.finite(),
        set.len() > 0,
    ensures
        set.contains(top),
        forall|other: u64| #[trigger] set.contains(other) ==> other <= top,
    decreases set.len(),
{
    let one = set.choose();
    let rest = set.remove(one);
    if rest.len() == 0 {
        assert forall|other: u64| #[trigger] set.contains(other) implies other <= one by {
            if other != one {
                assert(rest.contains(other));
            }
        }
        one
    } else {
        let top = greatest(rest);
        assert forall|other: u64| #[trigger] set.contains(other) implies other <= if one <= top {
            top
        } else {
            one
        } by {
            if other != one {
                assert(rest.contains(other));
            }
        }
        if one <= top {
            top
        } else {
            one
        }
    }
}

/// An event that is added at the end leaves the states before it as they were.
pub proof fn appending_keeps_past_states(events: Seq<EventView>, event: EventView, at: u64)
    requires
        gap_free(events),
        events.len() > 0,
        at <= events.last().seq,
    ensures
        history(events.push(event), at as int) == history(events, at as int),
{
    assert(events[events.len() - 1] == events.last());
    assert(until(events.push(event), at as int) =~= until(events, at as int));
}

/// The state after an added event is the state before with its patch applied.
pub proof fn appending_applies_the_patch(events: Seq<EventView>, event: EventView)
    requires
        gap_free(events),
        event.seq == next_of(events),
    ensures
        history(events.push(event), event.seq as int) == match replay(empty_text(), events) {
            Ok(state) => replay(state, seq![event]),
            Err(e) => Err(e),
        },
        events.len() > 0 ==> replay(empty_text(), events) == history(
            events,
            events.last().seq as int,
        ),
{
    let more = events.push(event);
    if events.len() > 0 {
        assert(events[events.len() - 1] == events.last());
        assert(until(events, events.last().seq as int) =~= events);
    }
    assert(until(more, event.seq as int) =~= events + seq![event]);
    replay_in_two_steps(empty_text(), events, seq![event]);
}

/// Reading a page and then going on after it is reading everything.
pub proof fn pages_join(events: Seq<EventView>, from: int, limit: int)
    requires
        gap_free(events),
        limit > 0,
        since(events, from).len() > 0,
    ensures
        ({
            let page = at_most(since(events, from), limit);
            page.len() > 0 && since(events, from) == page + since(events, page.last().seq + 1)
        }),
{
    let page = at_most(since(events, from), limit);
    let start = count_before(events, from);
    assert(page.last() == events[start + page.len() - 1]);
    assert(events[start + page.len() - 1].seq == events[0].seq + start + page.len() - 1);
    assert(count_before(events, page.last().seq + 1) == start + page.len());
    assert(since(events, from) =~= page + since(events, page.last().seq + 1));
}

impl<E: EventBackend, C: CacheBackend, K: CheckpointBackend> Store<E, C, K> {
    /// Every cached state of every stream is the state that the log gives.
    pub open spec fn cache_is_coherent(&self) -> bool {
        forall|stream: Seq<char>|
            #![trigger self.entries(stream)]
            #![trigger self.events_of(stream)]
            coherent(self.events_of(stream), self.entries(stream))
    }

    /// The coordinate that `stream` starts at, once it has events.
    pub open spec fn first_coordinate(&self, stream: Seq<char>) -> u64 {
        match self.boundary(stream) {
            Some(boundary) => boundary,
            None => 1,
        }
    }

    /// A stream holds an event at every coordinate from one, or from what it was
    /// compacted to, up to its head, and at no other.
    pub proof fn every_coordinate_holds_an_event(&self, stream: Seq<char>, at: u64)
        requires
            self.wf(),
        ensures
            has_event(self.log().events(stream), at) <==> (self.log().head(stream) matches Some(
                head,
            ) && self.first_coordinate(stream) <= at <= head),
            has_event(self.events_of(stream), at) == has_event(self.log().events(stream), at),
    {
        shown_is_gap_free(self, stream);
        let stored = self.log().events(stream);
        let shown = self.events_of(stream);
        coordinates_are_contiguous(stored, at);
        coordinates_are_contiguous(shown, at);
        if stored.len() > 0 {
            assert(shown[0].seq == stored[0].seq);
        }
    }

    /// What a store that works answers to a request for a state: the state that all
    /// patches up to the coordinate make of nothing, if there is an event there, or
    /// if the coordinate is zero and nothing was compacted away; otherwise why there
    /// is none. Without events there is no state to be had at a coordinate, and the
    /// current one is null.
    pub proof fn every_request_for_a_state_is_answered(&self, stream: Seq<char>, at: u64)
        requires
            self.wf(),
            self.cache_is_coherent(),
        ensures
            ({
                let shown = self.events_of(stream);
                let answer = self.answer_at(stream, at);
                &&& shown.len() == 0 ==> answer == StateResult::Err(
                    ErrorView::UnknownStream(stream),
                )
                &&& shown.len() > 0 && at > shown.last().seq ==> answer == StateResult::Err(
                    ErrorView::SeqOutOfRange {
                        head: Some(SeqNo(shown.last().seq)),
                        requested: SeqNo(at),
                    },
                )
                &&& shown.len() > 0 && at <= shown.last().seq ==> match self.boundary(stream) {
                    Some(b) => if at < b {
                        answer == StateResult::Err(
                            ErrorView::SeqCompacted { boundary: SeqNo(b), requested: SeqNo(at) },
                        )
                    } else {
                        answer == replay("null"@, shown.take(at - shown[0].seq + 1))
                    },
                    None => answer == replay("null"@, shown.take(at as int)),
                }
                &&& self.answer_now(stream) == replay("null"@, shown)
            }),
    {
        let shown = self.events_of(stream);
        shown_is_gap_free(self, stream);
        self.answers_come_from_the_log(stream, at);
        let none: Entries = Map::empty();
        assert(coherent(shown, none));
        cache_makes_no_difference(shown, none, at);
        if shown.len() > 0 {
            assert(shown[shown.len() - 1] == shown.last());
            let head = shown.last().seq;
            self.answers_come_from_the_log(stream, head);
            cache_makes_no_difference(shown, none, head);
            assert(until(shown, head as int) =~= shown);
            if at <= head {
                match self.boundary(stream) {
                    Some(b) => {
                        if at >= b {
                            assert(until(shown, at as int) =~= shown.take(at - shown[0].seq + 1));
                        }
                    },
                    None => {
                        assert(until(shown, at as int) =~= shown.take(at as int));
                    },
                }
            }
        } else {
            assert(replay("null"@, shown) == StateResult::Ok("null"@));
        }
    }

    /// The event that goes with a coordinate is the one at that coordinate.
    pub proof fn the_event_at_a_coordinate_is_there(&self, stream: Seq<char>, at: u64)
        requires
            self.wf(),
            has_event(self.events_of(stream), at),
        ensures
            self.event_at(stream, at).seq == at,
            self.events_of(stream).contains(self.event_at(stream, at)),
    {
        let shown = self.events_of(stream);
        shown_is_gap_free(self, stream);
        coordinates_are_contiguous(shown, at);
        let n = count_before(shown, at as int);
        assert(shown[shown.len() - 1] == shown.last());
        assert(self.event_at(stream, at) == shown[n]);
    }

    /// The live streams are those that have events, the last of which is no deletion;
    /// each is listed once.
    pub proof fn every_live_stream_is_listed_once(&self, names: Seq<StreamId>, stream: Seq<char>)
        requires
            self.lists_live(names),
        ensures
            (self.log().events(stream).len() > 0 && !(self.events_of(stream).len() > 0
                && self.events_of(stream).last().kind == TOMBSTONE_KIND@)) <==> exists|i: int|
                0 <= i < names.len() && #[trigger] names[i]@ == stream,
            forall|i: int, j: int|
                0 <= i < j < names.len() ==> #[trigger] names[i]@ != #[trigger] names[j]@,
    {
        assert(self.live(stream) == (self.log().events(stream).len() > 0 && !(self.events_of(
            stream,
        ).len() > 0 && self.events_of(stream).last().kind == TOMBSTONE_KIND@)));
        if exists|i: int| 0 <= i < names.len() && #[trigger] names[i]@ == stream {
            let i = choose|i: int| 0 <= i < names.len() && #[trigger] names[i]@ == stream;
            assert(self.live(names[i]@));
        }
    }

    /// With a coherent cache, every answer is what the log alone gives.
    pub proof fn answers_come_from_the_log(&self, stream: Seq<char>, at: u64)
        requires
            self.wf(),
            self.cache_is_coherent(),
        ensures
            self.answer_at(stream, at) == state_answer(
                stream,
                self.events_of(stream),
                self.boundary(stream),
                Map::empty(),
                at,
            ),
            self.answer_at(stream, at) matches Ok(state) ==> history(
                self.events_of(stream),
                at as int,
            ) == StateResult::Ok(state),
    {
        shown_is_gap_free(self, stream);
        self.cache.wf_facts();
        let none: Entries = Map::empty();
        assert(coherent(self.events_of(stream), none));
        cache_makes_no_difference(self.events_of(stream), self.entries(stream), at);
        cache_makes_no_difference(self.events_of(stream), none, at);
    }

    /// A store whose cache is empty has a coherent cache.
    pub proof fn an_empty_cache_is_coherent(&self)
        requires
            forall|stream: Seq<char>| (#[trigger] self.entries(stream)) == Entries::empty(),
        ensures
            self.cache_is_coherent(),
    {
    }

    /// Dropping cached states keeps the cache coherent.
    pub proof fn pruning_keeps_the_cache_coherent(&self, earlier: &Self)
        requires
            earlier.cache_is_coherent(),
            self.same_log(earlier),
            self.events().upcasters == earlier.events().upcasters,
            forall|stream: Seq<char>| (#[trigger] self.entries(stream)).submap_of(
                earlier.entries(stream),
            ),
        ensures
            self.cache_is_coherent(),
    {
        assert forall|stream: Seq<char>| coherent(
            #[trigger] self.events_of(stream),
            self.entries(stream),
        ) by {
            assert(self.events_of(stream) == earlier.events_of(stream));
            assert(coherent(earlier.events_of(stream), earlier.entries(stream)));
            assert forall|at: u64| #[trigger] self.entries(stream).dom().contains(at) implies {
                &&& self.events_of(stream).len() > 0
                &&& self.events_of(stream)[0].seq <= at <= self.events_of(stream).last().seq
                &&& history(self.events_of(stream), at as int) == StateResult::Ok(
                    self.entries(stream)[at],
                )
            } by {
                assert(self.entries(stream).submap_of(earlier.entries(stream)));
                assert(earlier.entries(stream).dom().contains(at));
            }
        }
    }

    /// What a write that reached the log did to the events of each stream: the
    /// target got one more, every other stream stayed as it was.
    pub proof fn a_write_adds_one_event(
        &self,
        earlier: &Self,
        stream: Seq<char>,
        draft: DraftView,
        mode: WriteMode,
        at: i64,
        r: Result<Committed, StoreError>,
    )
        requires
            earlier.wf(),
            earlier.log().has_room(stream),
            self.same_setup(earlier),
            self.written(earlier, stream, draft, mode, at, r),
        ensures
            self.events_of(stream) == earlier.events_of(stream).push(
                upcast_through(
                    earlier.events().upcasters@,
                    draft.committed(next_of(earlier.log().events(stream)) as u64, at),
                ),
            ),
            forall|other: Seq<char>|
                other != stream ==> #[trigger] self.events_of(other) == earlier.events_of(other),
            forall|other: Seq<char>|
                (#[trigger] earlier.log().events(other)).is_prefix_of(self.log().events(other)),
    {
        let seq = next_of(earlier.log().events(stream)) as u64;
        let event = draft.committed(seq, at);
        assert(self.log().events(stream) == earlier.log().events(stream).push(event));
        assert(self.events_of(stream) =~= earlier.events_of(stream).push(
            upcast_through(earlier.events.upcasters@, event),
        ));
        assert forall|other: Seq<char>| other != stream implies #[trigger] self.events_of(other)
            == earlier.events_of(other) by {
            assert(self.log().events(other) == earlier.log().events(other));
        }
        assert forall|other: Seq<char>|
            (#[trigger] earlier.log().events(other)).is_prefix_of(self.log().events(other)) by {
            if other != stream {
                assert(self.log().events(other) == earlier.log().events(other));
            }
        }
    }

    /// No operation rewrites or removes an event: after a write, whatever came of
    /// it, every stream begins with the events that it had.
    pub proof fn events_are_never_rewritten(
        &self,
        earlier: &Self,
        stream: Seq<char>,
        draft: DraftView,
        mode: WriteMode,
        r: Result<Committed, StoreError>,
    )
        requires
            earlier.wf(),
            earlier.log().has_room(stream),
            self.same_setup(earlier),
            self.write_effect(earlier, stream, draft, mode, r),
        ensures
            forall|other: Seq<char>|
                (#[trigger] earlier.log().events(other)).is_prefix_of(self.log().events(other)),
    {
        if exists|at: i64| #[trigger] self.written(earlier, stream, draft, mode, at, r) {
            let at = choose|at: i64| #[trigger]
                self.written(earlier, stream, draft, mode, at, r);
            self.a_write_adds_one_event(earlier, stream, draft, mode, at, r);
        } else {
            assert(self.same_log(earlier));
        }
    }

    /// The state that a write started from is the one that the log gives.
    proof fn base_comes_from_the_log(
        &self,
        earlier: &Self,
        stream: Seq<char>,
        draft: DraftView,
        mode: WriteMode,
        at: i64,
        r: Result<Committed, StoreError>,
    )
        requires
            earlier.wf(),
            earlier.cache_is_coherent(),
            self.written(earlier, stream, draft, mode, at, r),
        ensures
            earlier.base_answer(stream, mode) == replay(empty_text(), earlier.events_of(stream)),
    {
        let shown = earlier.events_of(stream);
        shown_is_gap_free(earlier, stream);
        if shown.len() > 0 {
            let head = shown.last().seq;
            assert(shown[shown.len() - 1] == shown.last());
            assert(until(shown, head as int) =~= shown);
            earlier.answers_come_from_the_log(stream, head);
            assert(earlier.answer_at(stream, head) == history(shown, head as int));
        } else {
            assert(replay(empty_text(), shown) == StateResult::Ok(empty_text()));
        }
    }

    /// A write keeps the cache coherent.
    pub proof fn writing_keeps_the_cache_coherent(
        &self,
        earlier: &Self,
        stream: Seq<char>,
        draft: DraftView,
        mode: WriteMode,
        r: Result<Committed, StoreError>,
    )
        requires
            earlier.wf(),
            earlier.log().has_room(stream),
            earlier.cache_is_coherent(),
            self.same_setup(earlier),
            self.write_effect(earlier, stream, draft, mode, r),
        ensures
            self.cache_is_coherent(),
    {
        if exists|at: i64| #[trigger] self.written(earlier, stream, draft, mode, at, r) {
            let at = choose|at: i64| #[trigger]
                self.written(earlier, stream, draft, mode, at, r);
            self.a_write_adds_one_event(earlier, stream, draft, mode, at, r);
            self.base_comes_from_the_log(earlier, stream, draft, mode, at, r);
            let before = earlier.events_of(stream);
            let event = upcast_through(
                earlier.events.upcasters@,
                draft.committed(next_of(earlier.log().events(stream)) as u64, at),
            );
            shown_is_gap_free(earlier, stream);
            assert(event.seq == next_of(before)) by {
                if before.len() > 0 {
                    assert(before.last().seq == earlier.log().events(stream).last().seq);
                }
            }
            assert forall|other: Seq<char>| coherent(
                #[trigger] self.events_of(other),
                self.entries(other),
            ) by {
                assert(coherent(earlier.events_of(other), earlier.entries(other)));
                if other == stream {
                    self.written_entries_are_coherent(earlier, stream, event, mode, r);
                } else {
                    assert(self.events_of(other) == earlier.events_of(other));
                    assert(self.entries(other) == earlier.entries(other));
                }
            }
        } else {
            assert forall|other: Seq<char>| coherent(
                #[trigger] self.events_of(other),
                self.entries(other),
            ) by {
                assert(self.events_of(other) == earlier.events_of(other));
                assert(coherent(earlier.events_of(other), earlier.entries(other)));
                assert(self.entries(other) == earlier.entries(other));
            }
        }
    }

    /// What a write leaves in the cache of its stream is coherent.
    proof fn written_entries_are_coherent(
        &self,
        earlier: &Self,
        stream: Seq<char>,
        event: EventView,
        mode: WriteMode,
        r: Result<Committed, StoreError>,
    )
        requires
            gap_free(earlier.events_of(stream)),
            coherent(earlier.events_of(stream), earlier.entries(stream)),
            event.seq == next_of(earlier.events_of(stream)),
            self.events_of(stream) == earlier.events_of(stream).push(event),
            earlier.base_answer(stream, mode) == replay(empty_text(), earlier.events_of(stream)),
            earlier.base_answer(stream, mode) matches Ok(current) && self.settled(
                earlier,
                stream,
                current,
                event,
                match r {
                    Ok(_) => None,
                    Err(e) => Some(e@),
                },
            ),
        ensures
            coherent(self.events_of(stream), self.entries(stream)),
    {
        let before = earlier.events_of(stream);
        let after = self.events_of(stream);
        let current = earlier.base_answer(stream, mode)->Ok_0;
        let next = patched(current, event.patch);
        appending_applies_the_patch(before, event);
        assert(seq![event].drop_last() =~= Seq::<EventView>::empty());
        if before.len() > 0 {
            assert(before[before.len() - 1] == before.last());
        }
        assert forall|at: u64| #[trigger] self.entries(stream).dom().contains(at) implies {
            &&& after.len() > 0
            &&& after[0].seq <= at <= after.last().seq
            &&& history(after, at as int) == StateResult::Ok(self.entries(stream)[at])
        } by {
            let untouched = self.entries(stream) == earlier.entries(stream);
            let more = earlier.entries(stream).insert(event.seq, next->Ok_0);
            if !untouched {
                assert(next is Ok);
                assert(self.entries(stream).submap_of(more));
                assert(more.dom().contains(at));
                assert(self.entries(stream)[at] == more[at]);
            }
            if earlier.entries(stream).dom().contains(at) && (untouched || at != event.seq) {
                appending_keeps_past_states(before, event, at);
                assert(after[0] == before[0]);
                assert(self.entries(stream)[at] == earlier.entries(stream)[at]);
            } else {
                assert(at == event.seq);
                assert(self.entries(stream)[at] == next->Ok_0);
                assert(replay(current, seq![event]) == StateResult::Ok(next->Ok_0)) by {
                    assert(replay(current, Seq::<EventView>::empty()) == StateResult::Ok(current));
                }
            }
        }
    }

    /// A write leaves every state that could be asked for before it as it was.
    pub proof fn past_answers_stay(
        &self,
        earlier: &Self,
        stream: Seq<char>,
        draft: DraftView,
        mode: WriteMode,
        r: Result<Committed, StoreError>,
        other: Seq<char>,
        at: u64,
    )
        requires
            earlier.wf(),
            self.wf(),
            earlier.log().has_room(stream),
            earlier.cache_is_coherent(),
            self.same_setup(earlier),
            self.write_effect(earlier, stream, draft, mode, r),
            earlier.log().head(other) matches Some(head) && at <= head,
        ensures
            self.answer_at(other, at) == earlier.answer_at(other, at),
    {
        self.writing_keeps_the_cache_coherent(earlier, stream, draft, mode, r);
        self.answers_come_from_the_log(other, at);
        earlier.answers_come_from_the_log(other, at);
        shown_is_gap_free(earlier, other);
        shown_is_gap_free(self, other);
        let before = earlier.events_of(other);
        let after = self.events_of(other);
        if exists|time: i64| #[trigger] self.written(earlier, stream, draft, mode, time, r) {
            let time = choose|time: i64| #[trigger]
                self.written(earlier, stream, draft, mode, time, r);
            self.a_write_adds_one_event(earlier, stream, draft, mode, time, r);
            if other == stream {
                let event = upcast_through(
                    earlier.events.upcasters@,
                    draft.committed(next_of(earlier.log().events(stream)) as u64, time),
                );
                appending_keeps_past_states(before, event, at);
                assert(before[before.len() - 1] == before.last());
                assert(after.last() == event);
            }
        } else {
            assert(after == before);
        }
        let none: Entries = Map::empty();
        assert(coherent(before, none) && coherent(after, none));
        cache_makes_no_difference(before, none, at);
        cache_makes_no_difference(after, none, at);
    }

    /// What was written is read back: after a write that succeeded, the last
    /// event of the stream is the one that was written, at the coordinate and
    /// time that the writer was told, and the state is the one before with the
    /// patch applied, as the event is read.
    pub proof fn a_write_is_read_back(
        &self,
        earlier: &Self,
        stream: Seq<char>,
        draft: DraftView,
        mode: WriteMode,
        committed: Committed,
    )
        requires
            earlier.wf(),
            self.wf(),
            earlier.log().has_room(stream),
            earlier.cache_is_coherent(),
            self.same_setup(earlier),
            self.write_effect(earlier, stream, draft, mode, Ok(committed)),
        ensures
            ({
                let stored = draft.committed(committed.seq.0, committed.at.0);
                let shown = upcast_through(earlier.events().upcasters@, stored);
                &&& committed.seq.0 == next_of(earlier.log().events(stream))
                &&& self.log().head(stream) == Some(committed.seq.0)
                &&& self.log().events(stream).last() == stored
                &&& self.events_of(stream).last() == shown
                &&& earlier.base_answer(stream, mode) matches Ok(current) && {
                    &&& self.answer_now(stream) == replay(current, seq![shown])
                    &&& patched(current, shown.patch) matches Ok(next) ==> self.answer_now(stream)
                        == StateResult::Ok(next)
                }
            }),
    {
        let r: Result<Committed, StoreError> = Ok(committed);
        let at = choose|at: i64| #[trigger] self.written(earlier, stream, draft, mode, at, r);
        self.a_write_adds_one_event(earlier, stream, draft, mode, at, r);
        self.base_comes_from_the_log(earlier, stream, draft, mode, at, r);
        self.writing_keeps_the_cache_coherent(earlier, stream, draft, mode, r);
        shown_is_gap_free(earlier, stream);
        shown_is_gap_free(self, stream);
        let stored = draft.committed(committed.seq.0, committed.at.0);
        let shown = upcast_through(earlier.events.upcasters@, stored);
        let before = earlier.events_of(stream);
        let after = self.events_of(stream);
        assert(self.log().events(stream) == earlier.log().events(stream).push(stored));
        assert(after == before.push(shown));
        assert(shown.seq == next_of(before)) by {
            if before.len() > 0 {
                assert(before.last().seq == earlier.log().events(stream).last().seq);
            }
        }
        appending_applies_the_patch(before, shown);
        self.answers_come_from_the_log(stream, shown.seq);
        let none: Entries = Map::empty();
        assert(coherent(after, none));
        cache_makes_no_difference(after, none, shown.seq);
        let current = earlier.base_answer(stream, mode)->Ok_0;
        assert(after.last() == shown);
        assert(after[0].seq <= shown.seq) by {
            assert(after[after.len() - 1].seq == after[0].seq + after.len() - 1);
        }
        assert(seq![shown].drop_last() =~= Seq::<EventView>::empty());
        assert(replay(current, Seq::<EventView>::empty()) == StateResult::Ok(current));
    }

    /// No upcaster rewrites `event`.
    pub open spec fn is_shown_as_stored(&self, event: EventView) -> bool {
        upcast_through(self.events().upcasters@, event) == event
    }

    /// A revert brings the state back: after a revert that succeeded, the state
    /// is equal to the one at the target, and the log has grown by one event.
    /// Upcasters are not to rewrite the event of the revert.
    pub proof fn a_revert_restores_the_state(
        &self,
        earlier: &Self,
        stream: Seq<char>,
        to: u64,
        extra: Seq<char>,
        committed: Committed,
    )
        requires
            earlier.wf(),
            self.wf(),
            earlier.log().has_room(stream),
            earlier.cache_is_coherent(),
            self.same_setup(earlier),
            self.revert_effect(earlier, stream, to, extra, Ok(committed)),
            earlier.answer_now(stream) matches Ok(current) ==> earlier.answer_at(
                stream,
                to,
            ) matches Ok(target) ==> earlier.is_shown_as_stored(
                Self::revert_draft(current, target, extra, to).committed(
                    committed.seq.0,
                    committed.at.0,
                ),
            ),
        ensures
            self.log().events(stream).len() == earlier.log().events(stream).len() + 1,
            earlier.answer_at(stream, to) matches Ok(target) && self.answer_now(
                stream,
            ) matches Ok(state) && same_json(state, target),
    {
        let current = earlier.answer_now(stream)->Ok_0;
        let target = earlier.answer_at(stream, to)->Ok_0;
        let draft = Self::revert_draft(current, target, extra, to);
        self.a_write_is_read_back(earlier, stream, draft, WriteMode::Append, committed);
        let r: Result<Committed, StoreError> = Ok(committed);
        let at = choose|at: i64| #[trigger]
            self.written(earlier, stream, draft, WriteMode::Append, at, r);
        assert(self.log().events(stream) == earlier.log().events(stream).push(
            draft.committed(committed.seq.0, at),
        ));
        assert(leads_to(current, draft.patch, target));
    }

    /// Deleting a stream keeps its state, its history and every state in it, and
    /// takes it from the live streams. Upcasters are not to rewrite the event of
    /// the deletion.
    pub proof fn a_deletion_keeps_the_state(
        &self,
        earlier: &Self,
        stream: Seq<char>,
        meta: Seq<char>,
        committed: Committed,
    )
        requires
            earlier.wf(),
            self.wf(),
            earlier.log().has_room(stream),
            earlier.cache_is_coherent(),
            self.same_setup(earlier),
            changes_nothing(Self::tombstone_draft(meta).patch),
            self.write_effect(
                earlier,
                stream,
                Self::tombstone_draft(meta),
                WriteMode::Append,
                Ok(committed),
            ),
            earlier.is_shown_as_stored(
                Self::tombstone_draft(meta).committed(committed.seq.0, committed.at.0),
            ),
        ensures
            self.answer_now(stream) == earlier.answer_now(stream),
            earlier.log().events(stream).is_prefix_of(self.log().events(stream)),
            !self.live(stream),
    {
        let draft = Self::tombstone_draft(meta);
        self.a_write_is_read_back(earlier, stream, draft, WriteMode::Append, committed);
        self.events_are_never_rewritten(earlier, stream, draft, WriteMode::Append, Ok(committed));
        let current = earlier.answer_now(stream)->Ok_0;
        assert(patched(current, draft.patch) == Ok::<Seq<char>, Seq<char>>(current));
    }

    /// Writing an event of any other kind brings a deleted stream back to life.
    /// Upcasters are not to rewrite the event.
    pub proof fn a_later_event_revives_the_stream(
        &self,
        earlier: &Self,
        stream: Seq<char>,
        draft: DraftView,
        mode: WriteMode,
        committed: Committed,
    )
        requires
            earlier.wf(),
            self.wf(),
            earlier.log().has_room(stream),
            earlier.cache_is_coherent(),
            self.same_setup(earlier),
            self.write_effect(earlier, stream, draft, mode, Ok(committed)),
            draft.kind != TOMBSTONE_KIND@,
            earlier.is_shown_as_stored(draft.committed(committed.seq.0, committed.at.0)),
        ensures
            self.live(stream),
    {
        self.a_write_is_read_back(earlier, stream, draft, mode, committed);
        shown_is_gap_free(self, stream);
    }

    /// There is no way around the checks: what some gate can only turn down never
    /// reaches the log.
    pub proof fn nothing_is_written_past_a_gate(
        &self,
        earlier: &Self,
        stream: Seq<char>,
        draft: DraftView,
        mode: WriteMode,
        r: Result<Committed, StoreError>,
        i: int,
    )
        requires
            self.write_effect(earlier, stream, draft, mode, r),
            0 <= i < earlier.gates()@.len(),
            earlier.base_answer(stream, mode) matches Ok(current) ==> patched(
                current,
                draft.patch,
            ) matches Ok(next) ==> !earlier.gates()@[i].may_answer(
                CandidateView {
                    stream,
                    kind: draft.kind,
                    patch: draft.patch,
                    current,
                    next,
                },
                Ok(()),
            ),
        ensures
            r is Err,
            self.untouched(earlier),
    {
        if exists|at: i64| #[trigger] self.written(earlier, stream, draft, mode, at, r) {
            let at = choose|at: i64| #[trigger]
                self.written(earlier, stream, draft, mode, at, r);
            let current = earlier.base_answer(stream, mode)->Ok_0;
            assert(earlier.admitted(stream, draft, current));
            let next = patched(current, draft.patch)->Ok_0;
            let candidate = CandidateView {
                stream,
                kind: draft.kind,
                patch: draft.patch,
                current,
                next,
            };
            assert(passes(earlier.gates@, candidate));
            assert(earlier.gates@[i].may_answer(candidate, Ok(())));
        }
    }

    /// A write that was turned down by a gate leaves everything as it was.
    pub proof fn a_refused_write_changes_nothing(
        &self,
        earlier: &Self,
        stream: Seq<char>,
        draft: DraftView,
        mode: WriteMode,
        error: StoreError,
    )
        requires
            earlier.reliable(),
            self.write_effect(earlier, stream, draft, mode, Err(error)),
            error is Schema,
        ensures
            self.untouched(earlier),
    {
    }

    /// A conditional write never lands on another head than the expected one.
    pub proof fn a_conditional_write_meets_its_head(
        &self,
        earlier: &Self,
        stream: Seq<char>,
        draft: DraftView,
        expected: SeqNo,
        committed: Committed,
    )
        requires
            earlier.log().has_room(stream),
            self.write_effect(
                earlier,
                stream,
                draft,
                WriteMode::AppendIfHead(expected),
                Ok(committed),
            ),
        ensures
            head_is(earlier.log(), stream, expected),
            committed.seq.0 == expected.0 + 1,
    {
    }

    /// Labels change no state.
    pub proof fn labels_change_no_state(
        &self,
        earlier: &Self,
        stream: Seq<char>,
        labels: Map<Seq<char>, u64>,
        other: Seq<char>,
        at: u64,
    )
        requires
            self.same_setup(earlier),
            self.cache() == earlier.cache(),
            self.log() == earlier.log().relabelled(stream, labels),
        ensures
            self.answer_at(other, at) == earlier.answer_at(other, at),
            self.answer_now(other) == earlier.answer_now(other),
            self.live(other) == earlier.live(other),
    {
        assert(self.log().events(other) == earlier.log().events(other));
        assert(self.boundary(other) == earlier.boundary(other));
    }
}

} // verus!
