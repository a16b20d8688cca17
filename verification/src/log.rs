//! The model of an event log: what a backend holds, stream by stream.
use vstd::prelude::*;

use crate::event::EventView;
use crate::json::{json_member, same_json};

verus! {

/// One stream: its events in order, and its labels.
#[verifier::ext_equal]
pub struct StreamLog {
    /// The events, oldest first.
    pub events: Seq<EventView>,
    /// The labels, each with the coordinate that it points at.
    pub labels: Map<Seq<char>, u64>,
}

/// All streams of a backend.
#[verifier::ext_equal]
pub struct LogView {
    /// The streams by name. A stream that is absent has no events and no labels.
    pub streams: Map<Seq<char>, StreamLog>,
}

/// The coordinates of `events` follow each other without gaps, start at one or
/// above, and leave room for a next one; and a machine can count the events.
pub open spec fn gap_free(events: Seq<EventView>) -> bool {
    &&& forall|i: int|
        0 <= i < events.len() ==> (#[trigger] events[i]).seq == events[0].seq + i
    &&& events.len() > 0 ==> events[0].seq >= 1 && events.last().seq < u64::MAX
    &&& events.len() <= usize::MAX
}

/// The coordinate of the last event.
pub open spec fn head_of(events: Seq<EventView>) -> Option<u64> {
    if events.len() == 0 {
        None
    } else {
        Some(events.last().seq)
    }
}

/// The coordinate that the next event gets.
pub open spec fn next_of(events: Seq<EventView>) -> int {
    match head_of(events) {
        Some(head) => head + 1,
        None => 1,
    }
}

/// How many of the events come before coordinate `from`.
pub open spec fn count_before(events: Seq<EventView>, from: int) -> int {
    if events.len() == 0 || from <= events[0].seq {
        0
    } else if from - events[0].seq >= events.len() {
        events.len() as int
    } else {
        from - events[0].seq
    }
}

/// The events at coordinate `from` and after it.
pub open spec fn since(events: Seq<EventView>, from: int) -> Seq<EventView> {
    events.skip(count_before(events, from))
}

/// The events at coordinate `at` and before it.
pub open spec fn until(events: Seq<EventView>, at: int) -> Seq<EventView> {
    events.take(count_before(events, at + 1))
}

/// The first `limit` of `items`, or all of them where there are fewer.
pub open spec fn at_most<T>(items: Seq<T>, limit: int) -> Seq<T> {
    if items.len() <= limit {
        items
    } else {
        items.take(limit)
    }
}

/// Whether there is an event at coordinate `at`.
pub open spec fn has_event(events: Seq<EventView>, at: u64) -> bool {
    exists|i: int| 0 <= i < events.len() && (#[trigger] events[i]).seq == at
}

/// The coordinate of the last event that is not later than `at`.
pub open spec fn seq_not_after(events: Seq<EventView>, at: i64) -> Option<u64>
    decreases events.len(),
{
    if events.len() == 0 {
        None
    } else if events.last().at <= at {
        Some(events.last().seq)
    } else {
        seq_not_after(events.drop_last(), at)
    }
}

/// Whether the attribution `meta` has a member `field` equal to `value`.
pub open spec fn meta_matches(meta: Seq<char>, field: Seq<char>, value: Seq<char>) -> bool {
    match json_member(meta, field) {
        Some(found) => same_json(found, value),
        None => false,
    }
}

/// The events whose attribution has a member `field` equal to `value`.
pub open spec fn with_meta(events: Seq<EventView>, field: Seq<char>, value: Seq<char>) -> Seq<
    EventView,
> {
    events.filter(|e: EventView| meta_matches(e.meta, field, value))
}

impl LogView {
    /// The events of `stream`.
    pub open spec fn events(self, stream: Seq<char>) -> Seq<EventView> {
        if self.streams.dom().contains(stream) {
            self.streams[stream].events
        } else {
            Seq::empty()
        }
    }

    /// The labels of `stream`.
    pub open spec fn labels(self, stream: Seq<char>) -> Map<Seq<char>, u64> {
        if self.streams.dom().contains(stream) {
            self.streams[stream].labels
        } else {
            Map::empty()
        }
    }

    /// Whether `stream` has events.
    pub open spec fn known(self, stream: Seq<char>) -> bool {
        self.events(stream).len() > 0
    }

    /// The head of `stream`.
    pub open spec fn head(self, stream: Seq<char>) -> Option<u64> {
        head_of(self.events(stream))
    }

    /// Every stream is without gaps.
    pub open spec fn well_formed(self) -> bool {
        forall|stream: Seq<char>| gap_free(#[trigger] self.events(stream))
    }

    /// There is a coordinate left for another event of `stream`.
    pub open spec fn has_room(self, stream: Seq<char>) -> bool {
        &&& next_of(self.events(stream)) < u64::MAX
        &&& self.events(stream).len() < usize::MAX
    }

    /// The log with `event` at the end of `stream`.
    pub open spec fn appended(self, stream: Seq<char>, event: EventView) -> LogView {
        LogView {
            streams: self.streams.insert(
                stream,
                StreamLog {
                    events: self.events(stream).push(event),
                    labels: self.labels(stream),
                },
            ),
        }
    }

    /// The log with other labels on `stream`.
    pub open spec fn relabelled(self, stream: Seq<char>, labels: Map<Seq<char>, u64>) -> LogView {
        LogView {
            streams: self.streams.insert(
                stream,
                StreamLog { events: self.events(stream), labels },
            ),
        }
    }
}

/// The events since a coordinate are those at it or above it.
pub proof fn since_is_a_filter(events: Seq<EventView>, from: int)
    requires
        gap_free(events),
    ensures
        since(events, from) == events.filter(|e: EventView| e.seq >= from),
    decreases events.len(),
{
    let keep = |e: EventView| e.seq >= from;
    reveal(Seq::filter);
    if events.len() > 0 {
        let rest = events.drop_last();
        assert forall|i: int| 0 <= i < rest.len() implies (#[trigger] rest[i]).seq == rest[0].seq
            + i by {
            assert(rest[i] == events[i]);
        }
        if rest.len() > 0 {
            assert(rest.last() == events[events.len() - 2]);
            assert(events.last() == events[events.len() - 1]);
        }
        since_is_a_filter(rest, from);
        assert(events.last().seq == events[0].seq + events.len() - 1);
        if keep(events.last()) {
            assert(since(events, from) =~= since(rest, from).push(events.last()));
        } else {
            assert(since(events, from) =~= Seq::<EventView>::empty());
            assert(since(rest, from) =~= Seq::<EventView>::empty());
        }
    }
}

/// A log without gaps has an event at each coordinate from the first to the head.
pub proof fn coordinates_are_contiguous(events: Seq<EventView>, at: u64)
    requires
        gap_free(events),
    ensures
        has_event(events, at) <==> events.len() > 0 && events[0].seq <= at <= events.last().seq,
{
    if events.len() > 0 && events[0].seq <= at <= events.last().seq {
        let i = at - events[0].seq;
        assert(events[events.len() - 1].seq == events[0].seq + events.len() - 1);
        assert(events[i].seq == at);
    }
    if has_event(events, at) {
        let i = choose|i: int| 0 <= i < events.len() && (#[trigger] events[i]).seq == at;
        assert(events[events.len() - 1].seq == events[0].seq + events.len() - 1);
    }
}

/// What `seq_not_after` finds is the greatest coordinate whose event is not
/// later than `at`; it finds nothing only where every event is later.
pub proof fn seq_not_after_is_greatest(events: Seq<EventView>, at: i64)
    requires
        gap_free(events),
    ensures
        match seq_not_after(events, at) {
            Some(seq) => {
                &&& exists|i: int|
                    0 <= i < events.len() && (#[trigger] events[i]).seq == seq && events[i].at <= at
                &&& forall|i: int|
                    0 <= i < events.len() && (#[trigger] events[i]).at <= at ==> events[i].seq
                        <= seq
            },
            None => forall|i: int| 0 <= i < events.len() ==> (#[trigger] events[i]).at > at,
        },
    decreases events.len(),
{
    if events.len() > 0 {
        let rest = events.drop_last();
        assert(events.last() == events[events.len() - 1]);
        if events.last().at <= at {
        } else {
            assert forall|i: int| 0 <= i < rest.len() implies (#[trigger] rest[i]).seq
                == rest[0].seq + i by {
                assert(rest[i] == events[i]);
            }
            if rest.len() > 0 {
                assert(rest.last() == events[events.len() - 2]);
            }
            seq_not_after_is_greatest(rest, at);
            match seq_not_after(rest, at) {
                Some(seq) => {
                    let i = choose|i: int|
                        0 <= i < rest.len() && (#[trigger] rest[i]).seq == seq && rest[i].at <= at;
                    assert(events[i] == rest[i]);
                    assert forall|j: int|
                        0 <= j < events.len() && (#[trigger] events[j]).at
                            <= at implies events[j].seq <= seq by {
                        if j < rest.len() {
                            assert(rest[j] == events[j]);
                        }
                    }
                },
                None => {
                    assert forall|j: int| 0 <= j < events.len() implies (#[trigger] events[j]).at
                        > at by {
                        if j < rest.len() {
                            assert(rest[j] == events[j]);
                        }
                    }
                },
            }
        }
    }
}

/// A log stays without gaps when the next coordinate is used for a new event.
pub proof fn appending_keeps_the_log_well_formed(
    log: LogView,
    stream: Seq<char>,
    event: EventView,
)
    requires
        log.well_formed(),
        log.has_room(stream),
        event.seq == next_of(log.events(stream)),
    ensures
        log.appended(stream, event).well_formed(),
{
    let after = log.appended(stream, event);
    assert forall|s: Seq<char>| gap_free(#[trigger] after.events(s)) by {
        assert(gap_free(log.events(s)));
        if s == stream {
            let before = log.events(stream);
            assert(after.events(s) == before.push(event));
            if before.len() > 0 {
                assert(before[before.len() - 1] == before.last());
            }
            assert(after.events(s).last() == event);
        } else {
            assert(after.events(s) == log.events(s));
        }
    }
}

/// A page is a beginning of what it is taken from, as long as was asked for, or all
/// of it.
pub proof fn a_page_is_a_beginning<T>(items: Seq<T>, limit: int)
    requires
        limit >= 0,
    ensures
        at_most(items, limit).len() == if limit < items.len() {
            limit
        } else {
            items.len() as int
        },
        forall|i: int|
            0 <= i < at_most(items, limit).len() ==> #[trigger] at_most(items, limit)[i]
                == items[i],
{
}

/// The events up to a coordinate are those at it or below it, and together with
/// those above it they are all events.
pub proof fn until_is_a_filter(events: Seq<EventView>, at: int)
    requires
        gap_free(events),
        at >= 0,
    ensures
        until(events, at) + since(events, at + 1) == events,
        forall|i: int| 0 <= i < until(events, at).len() ==> (#[trigger] until(events, at)[i]).seq <= at,
        forall|i: int|
            0 <= i < since(events, at + 1).len() ==> (#[trigger] since(events, at + 1)[i]).seq > at,
{
    let n = count_before(events, at + 1);
    assert(until(events, at) + since(events, at + 1) =~= events);
    assert forall|i: int| 0 <= i < since(events, at + 1).len() implies (#[trigger] since(
        events,
        at + 1,
    )[i]).seq > at by {
        assert(since(events, at + 1)[i] == events[n + i]);
    }
}

/// Reading by attribution finds exactly the events whose attribution has the member,
/// with a value that is equal; a missing member matches nothing, not even null. The
/// events come in the order of the log.
pub proof fn events_are_found_by_their_attribution(
    events: Seq<EventView>,
    field: Seq<char>,
    value: Seq<char>,
    event: EventView,
)
    ensures
        with_meta(events, field, value).contains(event) <==> events.contains(event) && (json_member(
            event.meta,
            field,
        ) matches Some(found) && same_json(found, value)),
        with_meta(events.push(event), field, value) == if json_member(
            event.meta,
            field,
        ) matches Some(found) && same_json(found, value) {
            with_meta(events, field, value).push(event)
        } else {
            with_meta(events, field, value)
        },
{
    let keep = |e: EventView| meta_matches(e.meta, field, value);
    let found = events.filter(keep);
    broadcast use vstd::seq_lib::group_filter_ensures;

    if found.contains(event) {
        let i = found.index_of(event);
        assert(keep(found[i]));
        events.lemma_filter_contains_rev(keep, event);
    }
    if events.contains(event) && keep(event) {
        let j = events.index_of(event);
        assert(keep(events[j]));
        assert(found.contains(events[j]));
    }
    let more = events.push(event);
    assert(more.drop_last() =~= events);
    reveal(Seq::filter);
}

/// A log that got one more event has that event at the end of its stream, with the
/// coordinate after the head, or one; no other stream and no label changes.
pub proof fn one_more_event_is_the_next(log: LogView, stream: Seq<char>, event: EventView)
    requires
        log.well_formed(),
        log.has_room(stream),
        event.seq == next_of(log.events(stream)),
    ensures
        ({
            let after = log.appended(stream, event);
            &&& event.seq == match log.head(stream) {
                Some(head) => head + 1,
                None => 1,
            }
            &&& after.head(stream) == Some(event.seq)
            &&& after.events(stream) == log.events(stream).push(event)
            &&& forall|other: Seq<char>|
                other != stream ==> #[trigger] after.events(other) == log.events(other)
            &&& forall|other: Seq<char>| #[trigger] after.labels(other) == log.labels(other)
        }),
{
}

} // verus!
