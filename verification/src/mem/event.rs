//! Event log in memory.
use vstd::prelude::*;

use crate::backend::{
    append_effect, append_may_give, condition_may_give, import_may_give, in_name_order, label_map, label_position,
    lists_streams, EventBackend,
};
use crate::error::{ErrorView, StoreError};
use crate::event::{event_views, Committed, DraftView, Event, EventView, NewEvent};
use crate::id::{
    a_clock_time_is_less_than_a_millisecond_old, is_clock_time, is_reading, Label, SeqNo, StreamId,
    Timestamp,
};
use crate::log::{at_most, count_before, gap_free, seq_not_after, since, LogView, StreamLog};
use crate::text::{
    comes_before, same_text, text_before, text_order_strict, text_order_total,
    text_order_transitive,
};
use crate::text_map::TextMap;

verus! {

/// The labels of one stream, by name.
struct LabelList {
    pairs: Vec<(Label, SeqNo)>,
}

impl LabelList {
    spec fn map(&self) -> Map<Seq<char>, u64> {
        label_map(self.pairs@)
    }

    spec fn wf(&self) -> bool {
        in_name_order(self.pairs@)
    }

    spec fn is_at(&self, i: int, name: Seq<char>) -> bool {
        0 <= i < self.pairs@.len() && self.pairs@[i].0@ == name
    }

    proof fn entry(&self, i: int)
        requires
            self.wf(),
            0 <= i < self.pairs@.len(),
        ensures
            self.map().dom().contains(self.pairs@[i].0@),
            self.map()[self.pairs@[i].0@] == self.pairs@[i].1.0,
    {
        let pairs = self.pairs@;
        let name = pairs[i].0@;
        let j = label_position(pairs, name);
        if i < j {
            assert(text_before(pairs[i].0@, pairs[j].0@));
            text_order_strict(name, name);
        } else if j < i {
            assert(text_before(pairs[j].0@, pairs[i].0@));
            text_order_strict(name, name);
        }
    }

    proof fn position_of(&self, name: Seq<char>) -> (i: int)
        requires
            self.map().dom().contains(name),
        ensures
            0 <= i < self.pairs@.len(),
            self.pairs@[i].0@ == name,
    {
        choose|i: int| 0 <= i < self.pairs@.len() && #[trigger] self.pairs@[i].0@ == name
    }

    fn new() -> (r: Self)
        ensures
            r.wf(),
            r.map() == Map::<Seq<char>, u64>::empty(),
    {
        let r = LabelList { pairs: Vec::new() };
        proof {
            assert(r.map() =~= Map::<Seq<char>, u64>::empty());
        }
        r
    }

    /// The first position whose name is not before `label`.
    fn position(&self, label: &Label) -> (r: usize)
        requires
            self.wf(),
        ensures
            r <= self.pairs@.len(),
            forall|j: int| 0 <= j < r ==> text_before(#[trigger] self.pairs@[j].0@, label@),
            r < self.pairs@.len() && self.pairs@[r as int].0@ != label@ ==> text_before(
                label@,
                self.pairs@[r as int].0@,
            ),
            self.map().dom().contains(label@) <==> r < self.pairs@.len() && self.pairs@[r as int].0@
                == label@,
    {
        let mut i: usize = 0;
        while i < self.pairs.len() && comes_before(self.pairs[i].0.as_str(), label.as_str())
            invariant
                i <= self.pairs@.len(),
                forall|j: int| 0 <= j < i ==> text_before(#[trigger] self.pairs@[j].0@, label@),
            decreases self.pairs@.len() - i,
        {
            i = i + 1;
        }
        proof {
            if i < self.pairs@.len() {
                text_order_total(label@, self.pairs@[i as int].0@);
                if self.pairs@[i as int].0@ == label@ {
                    self.entry(i as int);
                }
            }
            if self.map().dom().contains(label@) {
                let j = self.position_of(label@);
                if j < i {
                    text_order_strict(label@, label@);
                } else if i < j {
                    assert(text_before(self.pairs@[i as int].0@, self.pairs@[j].0@));
                    text_order_strict(self.pairs@[i as int].0@, label@);
                }
            }
        }
        i
    }

    fn get(&self, label: &Label) -> (r: Option<SeqNo>)
        requires
            self.wf(),
        ensures
            match r {
                Some(s) => self.map().dom().contains(label@) && self.map()[label@] == s.0,
                None => !self.map().dom().contains(label@),
            },
    {
        let i = self.position(label);
        if i < self.pairs.len() && same_text(self.pairs[i].0.as_str(), label.as_str()) {
            proof {
                self.entry(i as int);
            }
            Some(self.pairs[i].1)
        } else {
            None
        }
    }

    fn set(&mut self, label: &Label, at: SeqNo)
        requires
            old(self).wf(),
        ensures
            final(self).wf(),
            final(self).map() == old(self).map().insert(label@, at.0),
    {
        let ghost before = *self;
        let i = self.position(label);
        let fresh = (label.clone(), at);
        let ghost pair = fresh;
        let ghost cut = i as int;
        let ghost wanted = before.map().insert(label@, at.0);
        if i < self.pairs.len() && same_text(self.pairs[i].0.as_str(), label.as_str()) {
            self.pairs.set(i, fresh);
            proof {
                assert(self.pairs@[cut] == pair);
                assert(self.wf());
                self.entry(cut);
                assert forall|name: Seq<char>| #[trigger] wanted.dom().contains(name) implies
                    self.map().dom().contains(name) && self.map()[name] == wanted[name] by {
                    if name != label@ {
                        let j = before.position_of(name);
                        before.entry(j);
                        self.entry(j);
                    }
                }
                assert forall|name: Seq<char>| #[trigger] self.map().dom().contains(name) implies
                    wanted.dom().contains(name) by {
                    if name != label@ {
                        let j = self.position_of(name);
                        before.entry(j);
                    }
                }
                assert(self.map() =~= wanted);
            }
        } else {
            self.pairs.insert(i, fresh);
            proof {
                assert(self.pairs@[cut] == pair);
                assert forall|j: int| cut <= j < before.pairs@.len() implies text_before(
                    label@,
                    #[trigger] before.pairs@[j].0@,
                ) by {
                    if cut < j {
                        assert(text_before(before.pairs@[cut].0@, before.pairs@[j].0@));
                        text_order_transitive(
                            label@,
                            before.pairs@[cut].0@,
                            before.pairs@[j].0@,
                        );
                    }
                }
                assert forall|j: int, k: int| 0 <= j < k < self.pairs@.len() implies text_before(
                    #[trigger] self.pairs@[j].0@,
                    #[trigger] self.pairs@[k].0@,
                ) by {
                    let j0 = if j < cut { j } else { j - 1 };
                    let k0 = if k < cut { k } else { k - 1 };
                    if j != cut {
                        assert(self.pairs@[j] == before.pairs@[j0]);
                    }
                    if k != cut {
                        assert(self.pairs@[k] == before.pairs@[k0]);
                    }
                    if j != cut && k != cut {
                        assert(text_before(before.pairs@[j0].0@, before.pairs@[k0].0@));
                    }
                }
                self.entry(cut);
                assert forall|name: Seq<char>| #[trigger] wanted.dom().contains(name) implies
                    self.map().dom().contains(name) && self.map()[name] == wanted[name] by {
                    if name != label@ {
                        let j0 = before.position_of(name);
                        before.entry(j0);
                        let j = if j0 < cut { j0 } else { j0 + 1 };
                        assert(self.pairs@[j] == before.pairs@[j0]);
                        self.entry(j);
                    }
                }
                assert forall|name: Seq<char>| #[trigger] self.map().dom().contains(name) implies
                    wanted.dom().contains(name) by {
                    if name != label@ {
                        let j = self.position_of(name);
                        let j0 = if j < cut { j } else { j - 1 };
                        assert(self.pairs@[j] == before.pairs@[j0]);
                        before.entry(j0);
                    }
                }
                assert(self.map() =~= wanted);
            }
        }
    }

    fn remove(&mut self, label: &Label) -> (r: bool)
        requires
            old(self).wf(),
        ensures
            final(self).wf(),
            r == old(self).map().dom().contains(label@),
            final(self).map() == old(self).map().remove(label@),
            !r ==> *final(self) == *old(self),
    {
        let ghost before = *self;
        let i = self.position(label);
        let ghost cut = i as int;
        if i < self.pairs.len() && same_text(self.pairs[i].0.as_str(), label.as_str()) {
            let _ = self.pairs.remove(i);
            proof {
                let wanted = before.map().remove(label@);
                assert forall|j: int, k: int| 0 <= j < k < self.pairs@.len() implies text_before(
                    #[trigger] self.pairs@[j].0@,
                    #[trigger] self.pairs@[k].0@,
                ) by {
                    let j0 = if j < cut { j } else { j + 1 };
                    let k0 = if k < cut { k } else { k + 1 };
                    assert(self.pairs@[j] == before.pairs@[j0]);
                    assert(self.pairs@[k] == before.pairs@[k0]);
                    assert(text_before(before.pairs@[j0].0@, before.pairs@[k0].0@));
                }
                assert forall|name: Seq<char>| #[trigger] wanted.dom().contains(name) implies
                    self.map().dom().contains(name) && self.map()[name] == wanted[name] by {
                    let j0 = before.position_of(name);
                    before.entry(j0);
                    let j = if j0 < cut { j0 } else { j0 - 1 };
                    assert(self.pairs@[j] == before.pairs@[j0]);
                    self.entry(j);
                }
                assert forall|name: Seq<char>| #[trigger] self.map().dom().contains(name) implies
                    wanted.dom().contains(name) by {
                    let j = self.position_of(name);
                    let j0 = if j < cut { j } else { j + 1 };
                    assert(self.pairs@[j] == before.pairs@[j0]);
                    before.entry(j0);
                    assert(before.pairs@[j0].0@ != label@) by {
                        if j0 < cut {
                            text_order_strict(label@, label@);
                        } else {
                            assert(text_before(before.pairs@[cut].0@, before.pairs@[j0].0@));
                            text_order_strict(label@, label@);
                        }
                    }
                }
                assert(self.map() =~= wanted);
            }
            true
        } else {
            proof {
                assert(self.map() =~= self.map().remove(label@));
            }
            false
        }
    }

    fn to_vec(&self) -> (r: Vec<(Label, SeqNo)>)
        requires
            self.wf(),
        ensures
            in_name_order(r@),
            label_map(r@) == self.map(),
    {
        let mut out: Vec<(Label, SeqNo)> = Vec::new();
        let mut i: usize = 0;
        while i < self.pairs.len()
            invariant
                i <= self.pairs@.len(),
                out@.len() == i,
                forall|j: int|
                    0 <= j < i ==> (#[trigger] out@[j]).0@ == self.pairs@[j].0@ && out@[j].1
                        == self.pairs@[j].1,
            decreases self.pairs@.len() - i,
        {
            out.push((self.pairs[i].0.clone(), self.pairs[i].1));
            i = i + 1;
        }
        proof {
            let copy = LabelList { pairs: out };
            assert forall|j: int, k: int| 0 <= j < k < out@.len() implies text_before(
                #[trigger] out@[j].0@,
                #[trigger] out@[k].0@,
            ) by {
                assert(text_before(self.pairs@[j].0@, self.pairs@[k].0@));
            }
            assert forall|name: Seq<char>| #[trigger] self.map().dom().contains(name) implies
                copy.map().dom().contains(name) && copy.map()[name] == self.map()[name] by {
                let j = self.position_of(name);
                self.entry(j);
                assert(out@[j].0@ == self.pairs@[j].0@);
                copy.entry(j);
            }
            assert forall|name: Seq<char>| #[trigger] copy.map().dom().contains(name) implies
                self.map().dom().contains(name) by {
                let j = copy.position_of(name);
                self.entry(j);
            }
            assert(copy.map() =~= self.map());
        }
        out
    }
}

/// One stream.
struct StreamState {
    events: Vec<Event>,
    labels: LabelList,
}

impl StreamState {
    spec fn view(&self) -> StreamLog {
        StreamLog { events: event_views(self.events@), labels: self.labels.map() }
    }

    spec fn wf(&self) -> bool {
        &&& self.events@.len() > 0
        &&& self.events@[0].seq.0 == 1
        &&& gap_free(event_views(self.events@))
        &&& self.labels.wf()
    }

    /// The number of events before coordinate `from`.
    fn skip_count(&self, from: SeqNo) -> (r: usize)
        requires
            self.wf(),
        ensures
            r as int == count_before(event_views(self.events@), from.0 as int),
            r <= self.events@.len(),
    {
        let ghost views = event_views(self.events@);
        let first: u64 = self.events[0].seq.0;
        proof {
            assert(views.len() == self.events@.len());
            assert(views[0] == self.events@[0]@);
        }
        if from.0 <= first {
            0
        } else {
            let gap: u64 = from.0 - first;
            if gap >= self.events.len() as u64 {
                self.events.len()
            } else {
                gap as usize
            }
        }
    }
}

/// Log that lasts as long as the value itself.
pub struct MemEventBackend {
    streams: TextMap<StreamState>,
}

impl MemEventBackend {
    /// A log without streams.
    pub fn new() -> (r: Self)
        ensures
            r.wf(),
            r.reliable(),
            r.log().streams == Map::<Seq<char>, StreamLog>::empty(),
            forall|stream: Seq<char>| #[trigger] r.boundary(stream) is None,
    {
        let r = MemEventBackend { streams: TextMap::new() };
        proof {
            assert(r.log().streams =~= Map::<Seq<char>, StreamLog>::empty());
        }
        r
    }

    /// Add `rec` to the end of `stream`, at time `at`.
    fn insert_event(&mut self, stream: &StreamId, rec: NewEvent, at: Timestamp) -> (r: Committed)
        requires
            old(self).wf(),
            old(self).log().has_room(stream@),
        ensures
            final(self).wf(),
            append_effect(old(self).log(), final(self).log(), stream@, rec, Ok(r)),
            r.at == at,
    {
        let ghost before = *self;
        let ghost draft = rec@;
        proof {
            self.wf_facts();
        }
        match self.streams.position(stream.as_str()) {
            Some(i) => {
                let state = self.streams.value_mut(i);
                let n: usize = state.events.len();
                let ghost views = event_views(state.events@);
                proof {
                    assert(views.len() == n);
                    assert(views[n - 1] == state.events@[n - 1]@);
                    assert(before.log().events(stream@) == views);
                }
                let seq = state.events[n - 1].seq.next();
                let event = Event { seq, kind: rec.kind, patch: rec.patch, meta: rec.meta, at };
                let ghost placed = event@;
                let ghost earlier = state.events@;
                state.events.push(event);
                proof {
                    assert(event_views(state.events@) =~= event_views(earlier).push(placed));
                    assert(gap_free(event_views(state.events@))) by {
                        let longer = event_views(earlier).push(placed);
                        assert(longer.last() == placed);
                    }
                }
                proof {
                    assert(self.log().streams =~= before.log().appended(stream@, placed).streams);
                }
                Committed { seq, at }
            },
            None => {
                let seq = SeqNo(1);
                let event = Event { seq, kind: rec.kind, patch: rec.patch, meta: rec.meta, at };
                let ghost placed = event@;
                let mut events: Vec<Event> = Vec::new();
                events.push(event);
                proof {
                    assert(event_views(events@) =~= seq![placed]);
                    assert(Seq::<EventView>::empty().push(placed) =~= seq![placed]);
                }
                let state = StreamState { events, labels: LabelList::new() };
                self.streams.insert(stream.as_str(), state);
                proof {
                    assert(self.log().streams =~= before.log().appended(stream@, placed).streams);
                }
                Committed { seq, at }
            },
        }
    }
}

impl EventBackend for MemEventBackend {
    closed spec fn log(&self) -> LogView {
        LogView { streams: self.streams@.map_values(|s: StreamState| s.view()) }
    }

    /// Memory is never compacted.
    open spec fn boundary(&self, stream: Seq<char>) -> Option<u64> {
        None
    }

    closed spec fn wf(&self) -> bool {
        &&& self.streams.wf()
        &&& forall|stream: Seq<char>|
            self.streams@.dom().contains(stream) ==> (#[trigger] self.streams@[stream]).wf()
    }

    open spec fn reliable(&self) -> bool {
        true
    }

    proof fn wf_facts(&self) {
        assert forall|stream: Seq<char>| gap_free(#[trigger] self.log().events(stream)) by {
            if self.streams@.dom().contains(stream) {
                assert(self.streams@[stream].wf());
            }
        }
        assert forall|stream: Seq<char>| self.log().known(stream) implies (#[trigger]
        self.log().events(stream))[0].seq == 1 by {
            let state = self.streams@[stream];
            assert(state.wf());
            assert(event_views(state.events@)[0] == state.events@[0]@);
        }
    }

    fn append(&mut self, stream: &StreamId, rec: NewEvent) -> (r: Result<Committed, StoreError>)
        ensures
            r matches Ok(c) && is_clock_time(c.at.0),
    {
        let at = Timestamp::now();
        Ok(self.insert_event(stream, rec, at))
    }

    fn import_event(&mut self, stream: &StreamId, rec: NewEvent, at: Timestamp) -> (r: Result<
        Committed,
        StoreError,
    >)
        ensures
            r is Ok,
    {
        Ok(self.insert_event(stream, rec, at))
    }

    fn read(&self, stream: &StreamId, from: SeqNo, limit: usize) -> (r: Result<
        Vec<Event>,
        StoreError,
    >) {
        let mut out: Vec<Event> = Vec::new();
        match self.streams.get(stream.as_str()) {
            Some(state) => {
                let start: usize = state.skip_count(from);
                let ghost wanted = since(event_views(state.events@), from.0 as int);
                let mut i: usize = start;
                while i < state.events.len() && out.len() < limit
                    invariant
                        start <= i <= state.events@.len(),
                        out@.len() == i - start,
                        out@.len() <= limit,
                        forall|j: int|
                            0 <= j < out@.len() ==> (#[trigger] out@[j])@ == state.events@[start
                                + j]@,
                    decreases state.events@.len() - i,
                {
                    out.push(state.events[i].clone());
                    i = i + 1;
                }
                proof {
                    assert(event_views(state.events@).len() == state.events@.len());
                    assert(event_views(out@) =~= at_most(wanted, limit as int));
                }
            },
            None => {
                proof {
                    assert(event_views(out@) =~= at_most(
                        since(Seq::<EventView>::empty(), from.0 as int),
                        limit as int,
                    ));
                }
            },
        }
        Ok(out)
    }

    fn head(&self, stream: &StreamId) -> (r: Result<Option<SeqNo>, StoreError>) {
        match self.streams.get(stream.as_str()) {
            Some(state) => {
                let n: usize = state.events.len();
                proof {
                    assert(event_views(state.events@).last() == state.events@[n - 1]@);
                }
                Ok(Some(state.events[n - 1].seq))
            },
            None => Ok(None),
        }
    }

    fn seq_at_time(&self, stream: &StreamId, at: Timestamp) -> (r: Result<
        Option<SeqNo>,
        StoreError,
    >) {
        match self.streams.get(stream.as_str()) {
            Some(state) => {
                let ghost views = event_views(state.events@);
                let mut i: usize = state.events.len();
                proof {
                    assert(views.take(i as int) =~= views);
                }
                while i > 0
                    invariant
                        i <= state.events@.len(),
                        views == event_views(state.events@),
                        views == self.log().events(stream@),
                        seq_not_after(views, at.0) == seq_not_after(views.take(i as int), at.0),
                    decreases i,
                {
                    proof {
                        let shorter = views.take(i as int);
                        assert(shorter.last() == state.events@[i - 1]@);
                        assert(shorter.drop_last() =~= views.take(i - 1));
                    }
                    i = i - 1;
                    if state.events[i].at.0 <= at.0 {
                        return Ok(Some(state.events[i].seq));
                    }
                }
                Ok(None)
            },
            None => Ok(None),
        }
    }

    fn streams(&self) -> (r: Result<Vec<StreamId>, StoreError>) {
        let mut out: Vec<StreamId> = Vec::new();
        let mut i: usize = 0;
        proof {
            self.streams.order_facts();
        }
        while i < self.streams.len()
            invariant
                self.streams.wf(),
                i <= self.streams.order().len(),
                out@.len() == i,
                forall|j: int| 0 <= j < i ==> (#[trigger] out@[j])@ == self.streams.order()[j],
            decreases self.streams.order().len() - i,
        {
            out.push(StreamId(self.streams.key(i).clone()));
            i = i + 1;
        }
        proof {
            let names = self.streams.order();
            assert forall|j: int| 0 <= j < out@.len() implies self.log().known(
                #[trigger] out@[j]@,
            ) by {
                assert(self.streams@.dom().contains(names[j]));
                assert(self.streams@[names[j]].wf());
            }
            assert forall|stream: Seq<char>| self.log().known(stream) implies exists|j: int|
                0 <= j < out@.len() && #[trigger] out@[j]@ == stream by {
                assert(self.streams@.dom().contains(stream));
                let j = choose|j: int| 0 <= j < names.len() && #[trigger] names[j] == stream;
                assert(out@[j]@ == stream);
            }
            assert(lists_streams(self.log(), out@));
        }
        Ok(out)
    }

    fn compaction_boundary(&self, stream: &StreamId) -> (r: Result<Option<SeqNo>, StoreError>) {
        Ok(None)
    }

    fn label_set(&mut self, stream: &StreamId, label: &Label, at: SeqNo) -> (r: Result<
        (),
        StoreError,
    >) {
        let ghost before = *self;
        match self.streams.position(stream.as_str()) {
            Some(i) => {
                let state = self.streams.value(i);
                let first: u64 = state.events[0].seq.0;
                let n: usize = state.events.len();
                let last: SeqNo = state.events[n - 1].seq;
                proof {
                    let views = event_views(state.events@);
                    assert(views.len() == n);
                    assert(views[0] == state.events@[0]@);
                    assert(views.last() == state.events@[n - 1]@);
                    assert(self.log().events(stream@) == views);
                    crate::log::coordinates_are_contiguous(views, at.0);
                }
                if at.0 < first || last.0 < at.0 {
                    return Err(StoreError::SeqOutOfRange { head: Some(last), requested: at });
                }
                self.streams.value_mut(i).labels.set(label, at);
                proof {
                    assert(self.log().streams =~= before.log().relabelled(
                        stream@,
                        before.log().labels(stream@).insert(label@, at.0),
                    ).streams);
                }
                Ok(())
            },
            None => Err(StoreError::SeqOutOfRange { head: None, requested: at }),
        }
    }

    fn label_resolve(&self, stream: &StreamId, label: &Label) -> (r: Result<
        Option<SeqNo>,
        StoreError,
    >) {
        match self.streams.get(stream.as_str()) {
            Some(state) => Ok(state.labels.get(label)),
            None => Ok(None),
        }
    }

    fn labels(&self, stream: &StreamId) -> (r: Result<Vec<(Label, SeqNo)>, StoreError>) {
        match self.streams.get(stream.as_str()) {
            Some(state) => Ok(state.labels.to_vec()),
            None => {
                let out: Vec<(Label, SeqNo)> = Vec::new();
                proof {
                    assert(label_map(out@) =~= Map::<Seq<char>, u64>::empty());
                }
                Ok(out)
            },
        }
    }

    fn label_delete(&mut self, stream: &StreamId, label: &Label) -> (r: Result<bool, StoreError>) {
        let ghost before = *self;
        match self.streams.position(stream.as_str()) {
            Some(i) => {
                let existed = self.streams.value_mut(i).labels.remove(label);
                proof {
                    if existed {
                        assert(self.log().streams =~= before.log().relabelled(
                            stream@,
                            before.log().labels(stream@).remove(label@),
                        ).streams);
                    } else {
                        assert(self.log().streams =~= before.log().streams);
                    }
                }
                Ok(existed)
            },
            None => Ok(false),
        }
    }
}

/// The memory takes every import, and declines every conditional append.
pub proof fn memory_imports_and_takes_no_condition(
    backend: MemEventBackend,
    stream: Seq<char>,
    draft: DraftView,
)
    ensures
        forall|at: Timestamp, answer: Result<Committed, ErrorView>| #[trigger]
            import_may_give(backend, stream, draft, at, answer) ==> answer is Ok,
        forall|expected: SeqNo, answer: Result<Committed, ErrorView>| #[trigger]
            condition_may_give(backend, stream, draft, expected, answer) ==> answer == Err::<
                Committed,
                ErrorView,
            >(ErrorView::BackendUnsupported("append_if_head"@)),
{
}

/// An event that is appended to the memory carries the time that the clock showed
/// when it was appended: the reading is less than a millisecond away.
pub proof fn memory_appends_at_the_time_of_the_clock(
    backend: MemEventBackend,
    stream: Seq<char>,
    draft: DraftView,
    answer: Result<Committed, ErrorView>,
)
    requires
        append_may_give(backend, stream, draft, answer),
    ensures
        answer matches Ok(committed) && exists|nanos: int| #[trigger]
            is_reading(nanos) && -1_000_000 < nanos - committed.at.0 * 1_000_000 < 1_000_000,
{
    match answer {
        Ok(committed) => a_clock_time_is_less_than_a_millisecond_old(committed.at.0),
        Err(_) => {},
    }
}

} // verus!
