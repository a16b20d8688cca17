//! Reading events that were written in an earlier shape.
use std::sync::Arc;

use vstd::prelude::*;

use crate::backend::EventBackend;
use crate::error::StoreError;
use crate::event::{event_views, Event, EventView};
use crate::faults::{read_by_meta_may_fail, read_may_fail};
use crate::id::{SeqNo, StreamId};
use crate::json::json_text;
use crate::log::{at_most, since, with_meta};

verus! {

/// The member of an event's attribution that tells its shape. The store itself
/// neither reads nor writes it.
pub const SCHEMA_VERSION_META_KEY: &'static str = "_schema_version";

/// Brings an event from one shape to the next while it is read.
///
/// It is a pure function, it leaves events that it is not meant for as they are,
/// and it does not move an event to another coordinate.
pub trait Upcaster: Send + Sync {
    /// The event in the new shape.
    closed spec fn upcasted(&self, event: EventView) -> EventView {
        arbitrary()
    }

    /// Bring `event` to the new shape.
    fn upcast(&self, event: Event) -> (r: Event)
        ensures
            r@ == self.upcasted(event@),
            r.seq == event.seq,
    ;
}

/// `event` after the first `n` steps of `chain`.
pub open spec fn upcast_by(chain: Seq<Arc<dyn Upcaster>>, n: nat, event: EventView) -> EventView
    decreases n,
{
    if n == 0 {
        event
    } else {
        chain[n - 1].upcasted(upcast_by(chain, (n - 1) as nat, event))
    }
}

/// `event` after every step of `chain`, in order. No step moves it.
pub open spec fn upcast_through(chain: Seq<Arc<dyn Upcaster>>, event: EventView) -> EventView {
    EventView { seq: event.seq, ..upcast_by(chain, chain.len(), event) }
}

/// `events` after every step of `chain`.
pub open spec fn upcast_events(chain: Seq<Arc<dyn Upcaster>>, events: Seq<EventView>) -> Seq<
    EventView,
> {
    events.map_values(|e: EventView| upcast_through(chain, e))
}

/// An event log that is read through a chain of upcasters. What is stored stays
/// as it is.
pub struct UpcastingBackend<E: EventBackend> {
    /// The log.
    pub inner: E,
    /// The chain, the earliest shape first.
    pub upcasters: Vec<Arc<dyn Upcaster>>,
}

impl<E: EventBackend> UpcastingBackend<E> {
    /// The events of `stream` as they are read.
    pub open spec fn events(&self, stream: Seq<char>) -> Seq<EventView> {
        upcast_events(self.upcasters@, self.inner.log().events(stream))
    }

    /// Read `inner` through `upcasters`.
    pub fn new(inner: E, upcasters: Vec<Arc<dyn Upcaster>>) -> (r: Self)
        ensures
            r.inner == inner,
            r.upcasters == upcasters,
    {
        UpcastingBackend { inner, upcasters }
    }

    /// `event` after the whole chain.
    pub fn upcast_one(&self, event: Event) -> (r: Event)
        ensures
            r@ == upcast_through(self.upcasters@, event@),
    {
        let ghost start = event@;
        let mut current = event;
        let mut i: usize = 0;
        while i < self.upcasters.len()
            invariant
                i <= self.upcasters@.len(),
                current@ == upcast_by(self.upcasters@, i as nat, start),
                current@.seq == start.seq,
            decreases self.upcasters@.len() - i,
        {
            current = self.upcasters[i].upcast(current);
            i = i + 1;
        }
        current
    }

    /// `events` after the whole chain.
    pub fn upcast_all(&self, events: Vec<Event>) -> (r: Vec<Event>)
        ensures
            event_views(r@) == upcast_events(self.upcasters@, event_views(events@)),
    {
        let mut out: Vec<Event> = Vec::new();
        let mut i: usize = 0;
        while i < events.len()
            invariant
                i <= events@.len(),
                out@.len() == i,
                forall|j: int|
                    0 <= j < i ==> (#[trigger] out@[j])@ == upcast_through(
                        self.upcasters@,
                        events@[j]@,
                    ),
            decreases events@.len() - i,
        {
            out.push(self.upcast_one(events[i].clone()));
            i = i + 1;
        }
        proof {
            assert(event_views(out@) =~= upcast_events(self.upcasters@, event_views(events@)));
        }
        out
    }

    /// See [`EventBackend::read`]; each event is brought to the current shape.
    pub fn read(&self, stream: &StreamId, from: SeqNo, limit: usize) -> (r: Result<
        Vec<Event>,
        StoreError,
    >)
        requires
            self.inner.wf(),
        ensures
            r matches Ok(events) ==> event_views(events@) == at_most(
                since(self.events(stream@), from.0 as int),
                limit as int,
            ),
            self.inner.reliable() ==> r is Ok,
            r matches Err(e) ==> read_may_fail(self.inner, stream@, from, limit, e@),
    {
        match self.inner.read(stream, from, limit) {
            Ok(events) => {
                let out = self.upcast_all(events);
                proof {
                    let stored = self.inner.log().events(stream@);
                    let shown = self.events(stream@);
                    assert(shown.len() == stored.len());
                    if stored.len() > 0 {
                        assert(shown[0].seq == stored[0].seq);
                    }
                    assert(event_views(out@) =~= at_most(
                        since(shown, from.0 as int),
                        limit as int,
                    ));
                }
                Ok(out)
            },
            Err(e) => Err(e),
        }
    }

    /// See [`EventBackend::read_by_meta`]. Events are chosen as they are stored,
    /// and then brought to the current shape.
    pub fn read_by_meta(
        &self,
        stream: &StreamId,
        field: &str,
        value: &serde_json::Value,
        from: SeqNo,
        limit: usize,
    ) -> (r: Result<Vec<Event>, StoreError>)
        requires
            self.inner.wf(),
        ensures
            r matches Ok(events) ==> event_views(events@) == upcast_events(
                self.upcasters@,
                at_most(
                    with_meta(
                        since(self.inner.log().events(stream@), from.0 as int),
                        field@,
                        json_text(*value),
                    ),
                    limit as int,
                ),
            ),
            self.inner.reliable() ==> r is Ok,
            r matches Err(e) ==> read_by_meta_may_fail(
                self.inner,
                stream@,
                field@,
                json_text(*value),
                from,
                limit,
                e@,
            ),
    {
        match self.inner.read_by_meta(stream, field, value, from, limit) {
            Ok(events) => Ok(self.upcast_all(events)),
            Err(e) => Err(e),
        }
    }
}

/// Without upcasters, events are read as they are stored.
pub proof fn no_upcasters_change_nothing(chain: Seq<Arc<dyn Upcaster>>, events: Seq<EventView>)
    requires
        chain.len() == 0,
    ensures
        upcast_events(chain, events) == events,
{
    assert(upcast_events(chain, events) =~= events);
}

/// The last step of a chain works on what the steps before it made of an event.
pub proof fn chain_steps_compose(chain: Seq<Arc<dyn Upcaster>>, event: EventView)
    requires
        chain.len() > 0,
    ensures
        upcast_by(chain, chain.len(), event) == chain.last().upcasted(
            upcast_by(chain.drop_last(), (chain.len() - 1) as nat, event),
        ),
{
    later_steps_do_not_matter(chain, (chain.len() - 1) as nat, event);
}

proof fn later_steps_do_not_matter(chain: Seq<Arc<dyn Upcaster>>, n: nat, event: EventView)
    requires
        n < chain.len(),
    ensures
        upcast_by(chain.drop_last(), n, event) == upcast_by(chain, n, event),
    decreases n,
{
    if n > 0 {
        later_steps_do_not_matter(chain, (n - 1) as nat, event);
    }
}

/// An event is shown as the one upcaster of a chain makes of it, in everything but
/// its coordinate.
pub proof fn an_upcaster_changes_all_but_the_coordinate(
    chain: Seq<Arc<dyn Upcaster>>,
    event: EventView,
)
    requires
        chain.len() == 1,
    ensures
        ({
            let shown = upcast_through(chain, event);
            let made = chain[0].upcasted(event);
            &&& shown.seq == event.seq
            &&& shown.kind == made.kind
            &&& shown.patch == made.patch
            &&& shown.meta == made.meta
            &&& shown.at == made.at
        }),
{
    reveal_with_fuel(upcast_by, 2);
}

/// Events are shown one by one, in the order in which they are stored.
pub proof fn events_are_shown_one_by_one(
    chain: Seq<Arc<dyn Upcaster>>,
    events: Seq<EventView>,
    i: int,
)
    requires
        0 <= i < events.len(),
    ensures
        upcast_events(chain, events).len() == events.len(),
        upcast_events(chain, events)[i] == upcast_through(chain, events[i]),
{
}

} // verus!
