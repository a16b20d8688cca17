//! What a store needs of its storage: an event log, a cache of states, and a
//! place for the checkpoints of sinks.
use vstd::prelude::*;

use crate::error::{ErrorView, StoreError};
use crate::event::{event_views, Committed, DraftView, Event, EventView, NewEvent};
use crate::id::{Label, SeqNo, StreamId, Timestamp};
use crate::json::{json_text, member, same_value};
use crate::log::{
    at_most, count_before, has_event, meta_matches, next_of, seq_not_after, since, with_meta,
    LogView,
};
use crate::text::{text_before, text_order_strict};

verus! {

/// The labels that `pairs` lists.
pub open spec fn label_map(pairs: Seq<(Label, SeqNo)>) -> Map<Seq<char>, u64> {
    Map::new(
        |name: Seq<char>| exists|i: int| 0 <= i < pairs.len() && #[trigger] pairs[i].0@ == name,
        |name: Seq<char>| pairs[label_position(pairs, name)].1.0,
    )
}

/// Where `pairs` lists the label `name`.
pub open spec fn label_position(pairs: Seq<(Label, SeqNo)>, name: Seq<char>) -> int {
    choose|i: int| 0 <= i < pairs.len() && #[trigger] pairs[i].0@ == name
}

/// `pairs` goes by name, each name once.
pub open spec fn in_name_order(pairs: Seq<(Label, SeqNo)>) -> bool {
    forall|i: int, j: int|
        0 <= i < j < pairs.len() ==> text_before(#[trigger] pairs[i].0@, #[trigger] pairs[j].0@)
}

/// The names in `names` are exactly the known streams of `log`, each once.
pub open spec fn lists_streams(log: LogView, names: Seq<StreamId>) -> bool {
    &&& forall|i: int| 0 <= i < names.len() ==> log.known(#[trigger] names[i]@)
    &&& forall|stream: Seq<char>|
        log.known(stream) ==> exists|i: int| 0 <= i < names.len() && #[trigger] names[i]@ == stream
    &&& forall|i: int, j: int|
        0 <= i < j < names.len() ==> #[trigger] names[i]@ != #[trigger] names[j]@
}

/// The head that a conditional append expects: a coordinate, or zero for a
/// stream without events.
pub open spec fn head_is(log: LogView, stream: Seq<char>, expected: SeqNo) -> bool {
    match log.head(stream) {
        Some(head) => head == expected.0,
        None => expected.0 == 0,
    }
}

/// `error` says that the head of `stream` is not the expected one, and where it
/// is.
pub open spec fn head_conflict(
    log: LogView,
    stream: Seq<char>,
    expected: SeqNo,
    error: ErrorView,
) -> bool {
    &&& !head_is(log, stream, expected)
    &&& error == ErrorView::HeadConflict {
        expected,
        actual: match log.head(stream) {
            Some(head) => Some(SeqNo(head)),
            None => None,
        },
    }
}

/// What an append does to a log: on success the draft becomes the next event of
/// the stream, otherwise the log is as it was.
pub open spec fn append_effect(
    before: LogView,
    after: LogView,
    stream: Seq<char>,
    rec: NewEvent,
    r: Result<Committed, StoreError>,
) -> bool {
    match r {
        Ok(c) => {
            &&& c.seq.0 == next_of(before.events(stream))
            &&& after == before.appended(stream, rec@.committed(c.seq.0, c.at.0))
        },
        Err(_) => after == before,
    }
}

/// What a commit came to.
pub open spec fn commit_result(r: Result<Committed, StoreError>) -> Result<Committed, ErrorView> {
    match r {
        Ok(c) => Ok(c),
        Err(e) => Err(e@),
    }
}

/// The backend may answer an append with `answer`, as far as what it promises of
/// its own appends goes.
pub open spec fn append_may_give<E: EventBackend>(
    backend: E,
    stream: Seq<char>,
    draft: DraftView,
    answer: Result<Committed, ErrorView>,
) -> bool {
    exists|b: &mut E, s: &StreamId, rec: NewEvent, r: Result<Committed, StoreError>|
        *b == backend && s@ == stream && rec@ == draft && commit_result(r) == answer
            && #[trigger] call_ensures(<E as EventBackend>::append, (b, s, rec), r)
}

/// The backend may answer an import with `answer`, as far as what it promises of
/// its own imports goes.
pub open spec fn import_may_give<E: EventBackend>(
    backend: E,
    stream: Seq<char>,
    draft: DraftView,
    at: Timestamp,
    answer: Result<Committed, ErrorView>,
) -> bool {
    exists|b: &mut E, s: &StreamId, rec: NewEvent, r: Result<Committed, StoreError>|
        *b == backend && s@ == stream && rec@ == draft && commit_result(r) == answer
            && #[trigger] call_ensures(<E as EventBackend>::import_event, (b, s, rec, at), r)
}

/// The backend may answer a conditional append with `answer`, as far as what it
/// promises of its own conditional appends goes.
pub open spec fn condition_may_give<E: EventBackend>(
    backend: E,
    stream: Seq<char>,
    draft: DraftView,
    expected: SeqNo,
    answer: Result<Committed, ErrorView>,
) -> bool {
    exists|b: &mut E, s: &StreamId, rec: NewEvent, r: Result<Committed, StoreError>|
        *b == backend && s@ == stream && rec@ == draft && commit_result(r) == answer
            && #[trigger] call_ensures(
            <E as EventBackend>::append_if_head,
            (b, s, rec, expected),
            r,
        )
}

/// Storage of the event log and of the labels.
///
/// No method removes or rewrites an event. Each method either does what it says
/// or reports an error and leaves the log as it was.
///
/// What the ghost functions mean is up to the implementation; where it does not
/// say, it is left open.
pub trait EventBackend: Sized {
    /// What is stored.
    closed spec fn log(&self) -> LogView {
        arbitrary()
    }

    /// The coordinate that `stream` was compacted to, if it was.
    closed spec fn boundary(&self, stream: Seq<char>) -> Option<u64> {
        arbitrary()
    }

    /// Whether the backend is in order.
    closed spec fn wf(&self) -> bool {
        arbitrary()
    }

    /// Whether the storage never fails on its own account.
    closed spec fn reliable(&self) -> bool {
        arbitrary()
    }

    /// A backend in order holds a log without gaps. A stream starts at its
    /// boundary, if it was compacted, and otherwise at one.
    proof fn wf_facts(&self)
        requires
            self.wf(),
        ensures
            self.log().well_formed(),
            forall|stream: Seq<char>|
                #![trigger self.boundary(stream)]
                self.boundary(stream) matches Some(b) ==> self.log().known(stream)
                    && self.log().events(stream)[0].seq == b,
            forall|stream: Seq<char>|
                #![trigger self.boundary(stream)]
                self.boundary(stream) is None && self.log().known(stream) ==> self.log().events(
                    stream,
                )[0].seq == 1,
    ;

    /// Append one event; the backend gives it the next coordinate and the time.
    fn append(&mut self, stream: &StreamId, rec: NewEvent) -> (r: Result<Committed, StoreError>)
        requires
            old(self).wf(),
            old(self).log().has_room(stream@),
        ensures
            final(self).wf(),
            final(self).reliable() == old(self).reliable(),
            forall|s: Seq<char>| #[trigger] final(self).boundary(s) == old(self).boundary(s),
            append_effect(old(self).log(), final(self).log(), stream@, rec, r),
            old(self).reliable() ==> r is Ok,
    ;

    /// Append one event that carries the time `at`. A backend that cannot honour
    /// a time given by the caller declines.
    fn import_event(&mut self, stream: &StreamId, rec: NewEvent, at: Timestamp) -> (r: Result<
        Committed,
        StoreError,
    >)
        requires
            old(self).wf(),
            old(self).log().has_room(stream@),
        ensures
            final(self).wf(),
            final(self).reliable() == old(self).reliable(),
            forall|s: Seq<char>| #[trigger] final(self).boundary(s) == old(self).boundary(s),
            append_effect(old(self).log(), final(self).log(), stream@, rec, r),
            r matches Ok(c) ==> c.at == at,
            old(self).reliable() ==> (r matches Err(e) ==> e@ == ErrorView::BackendUnsupported(
                "import_event"@,
            )),
        default_ensures
            r matches Err(e) && e@ == ErrorView::BackendUnsupported("import_event"@),
            *final(self) == *old(self),
    {
        Err(StoreError::BackendUnsupported("import_event".to_owned()))
    }

    /// Append one event if the head of the stream is `expected`, the check and
    /// the append in one step. A backend that cannot do so declines.
    fn append_if_head(&mut self, stream: &StreamId, rec: NewEvent, expected: SeqNo) -> (r: Result<
        Committed,
        StoreError,
    >)
        requires
            old(self).wf(),
            old(self).log().has_room(stream@),
        ensures
            final(self).wf(),
            final(self).reliable() == old(self).reliable(),
            forall|s: Seq<char>| #[trigger] final(self).boundary(s) == old(self).boundary(s),
            append_effect(old(self).log(), final(self).log(), stream@, rec, r),
            r is Ok ==> head_is(old(self).log(), stream@, expected),
            old(self).reliable() ==> (r matches Err(e) ==> e@ == ErrorView::BackendUnsupported(
                "append_if_head"@,
            ) || head_conflict(old(self).log(), stream@, expected, e@)),
        default_ensures
            r matches Err(e) && e@ == ErrorView::BackendUnsupported("append_if_head"@),
            *final(self) == *old(self),
    {
        Err(StoreError::BackendUnsupported("append_if_head".to_owned()))
    }

    /// The events of `stream` from coordinate `from` on, at most `limit` of them.
    fn read(&self, stream: &StreamId, from: SeqNo, limit: usize) -> (r: Result<
        Vec<Event>,
        StoreError,
    >)
        requires
            self.wf(),
        ensures
            r matches Ok(events) ==> event_views(events@) == at_most(
                since(self.log().events(stream@), from.0 as int),
                limit as int,
            ),
            self.reliable() ==> r is Ok,
    ;

    /// The events of `stream` from coordinate `from` on whose attribution has a
    /// member `field` equal to `value`, at most `limit` of them.
    fn read_by_meta(
        &self,
        stream: &StreamId,
        field: &str,
        value: &serde_json::Value,
        from: SeqNo,
        limit: usize,
    ) -> (r: Result<Vec<Event>, StoreError>)
        requires
            self.wf(),
        ensures
            r matches Ok(events) ==> event_views(events@) == at_most(
                with_meta(
                    since(self.log().events(stream@), from.0 as int),
                    field@,
                    json_text(*value),
                ),
                limit as int,
            ),
            self.reliable() ==> r is Ok,
        default_ensures
            limit == 0 ==> r is Ok,
            r matches Err(e) ==> exists|at: SeqNo, count: usize| #[trigger]
                call_ensures(
                    Self::read,
                    (self, stream, at, count),
                    Err::<Vec<Event>, StoreError>(e),
                ),
    {
        let mut out: Vec<Event> = Vec::new();
        if limit == 0 {
            proof {
                assert(event_views(out@) =~= Seq::<EventView>::empty());
            }
            return Ok(out);
        }
        let batch: usize = 128;
        let mut cursor: SeqNo = from;
        let ghost all = since(self.log().events(stream@), from.0 as int);
        let ghost mut done: int = 0;
        proof {
            self.wf_facts();
            assert(all.take(0) =~= Seq::<EventView>::empty());
            assert(with_meta(all.take(0), field@, json_text(*value)) =~= Seq::<EventView>::empty())
                by {
                reveal(Seq::filter);
            }
            assert(event_views(out@) =~= Seq::<EventView>::empty());
            assert(all.skip(0) =~= all);
        }
        loop
            invariant
                self.wf(),
                limit > 0,
                batch == 128,
                self.log().well_formed(),
                all == since(self.log().events(stream@), from.0 as int),
                0 <= done <= all.len(),
                all.skip(done) == since(self.log().events(stream@), cursor.0 as int),
                event_views(out@) == with_meta(all.take(done), field@, json_text(*value)),
                out@.len() < limit,
            decreases all.len() - done,
        {
            let events = match self.read(stream, cursor, batch) {
                Ok(events) => events,
                Err(e) => {
                    return Err(e);
                },
            };
            let ghost page = at_most(all.skip(done), batch as int);
            proof {
                assert(event_views(events@) == page);
                assert(event_views(events@).len() == events@.len());
            }
            if events.len() == 0 {
                proof {
                    assert(done == all.len());
                    assert(all.take(done) =~= all);
                    assert(at_most(
                        with_meta(all, field@, json_text(*value)),
                        limit as int,
                    ) == event_views(out@)) by {
                        assert(event_views(out@).len() == out@.len());
                    }
                }
                return Ok(out);
            }
            let last: SeqNo = events[events.len() - 1].seq;
            let mut i: usize = 0;
            let ghost start = done;
            while i < events.len()
                invariant
                    self.wf(),
                    limit > 0,
                    i <= events@.len(),
                    0 <= start <= all.len(),
                    start + events@.len() <= all.len(),
                    all == since(self.log().events(stream@), from.0 as int),
                    event_views(events@) == page,
                    page == at_most(all.skip(start), batch as int),
                    event_views(out@) == with_meta(
                        all.take(start + i),
                        field@,
                        json_text(*value),
                    ),
                    out@.len() < limit,
                decreases events@.len() - i,
            {
                let ghost before = all.take(start + i);
                proof {
                    assert(event_views(events@)[i as int] == events@[i as int]@);
                    assert(page.len() == events@.len());
                    assert(page[i as int] == all.skip(start)[i as int]);
                    assert(all.take(start + i + 1) =~= before.push(all[start + i]));
                    assert(all.take(start + i + 1).drop_last() =~= before);
                    reveal(Seq::filter);
                }
                let hit = match member(&events[i].meta, field) {
                    Some(found) => same_value(found, value),
                    None => false,
                };
                proof {
                    assert(hit == meta_matches(all[start + i].meta, field@, json_text(*value)));
                }
                if hit {
                    let ghost earlier = out@;
                    out.push(events[i].clone());
                    proof {
                        assert(event_views(out@) =~= event_views(earlier).push(all[start + i]));
                    }
                    if out.len() >= limit {
                        proof {
                            take_of_filter(all, start + i + 1, |e: EventView|
                                meta_matches(e.meta, field@, json_text(*value)));
                            assert(event_views(out@).len() == limit);
                            assert(at_most(
                                with_meta(all, field@, json_text(*value)),
                                limit as int,
                            ) =~= event_views(out@));
                        }
                        return Ok(out);
                    }
                }
                i = i + 1;
            }
            proof {
                done = start + events@.len();
                let stored = self.log().events(stream@);
                assert(crate::log::gap_free(stored));
                let k = count_before(stored, from.0 as int);
                assert(all[done - 1] == stored[k + done - 1]);
                assert(event_views(events@)[events@.len() - 1] == events@[events@.len() - 1]@);
                assert(page[events@.len() - 1] == all[done - 1]);
                assert(last.0 == stored[k + done - 1].seq);
                assert(stored[stored.len() - 1] == stored.last());
                assert(count_before(stored, last.0 + 1) == k + done);
                assert(all.skip(done) =~= since(stored, last.0 + 1));
            }
            cursor = last.next();
        }
    }

    /// Coordinate of the last event of `stream`.
    fn head(&self, stream: &StreamId) -> (r: Result<Option<SeqNo>, StoreError>)
        requires
            self.wf(),
        ensures
            r matches Ok(head) ==> match head {
                Some(h) => self.log().head(stream@) == Some(h.0),
                None => self.log().head(stream@) is None,
            },
            self.reliable() ==> r is Ok,
    ;

    /// The greatest coordinate whose event is not later than `at`.
    fn seq_at_time(&self, stream: &StreamId, at: Timestamp) -> (r: Result<
        Option<SeqNo>,
        StoreError,
    >)
        requires
            self.wf(),
        ensures
            r matches Ok(seq) ==> match seq {
                Some(s) => seq_not_after(self.log().events(stream@), at.0) == Some(s.0),
                None => seq_not_after(self.log().events(stream@), at.0) is None,
            },
            self.reliable() ==> r is Ok,
    ;

    /// The streams that have events, in no particular order.
    fn streams(&self) -> (r: Result<Vec<StreamId>, StoreError>)
        requires
            self.wf(),
        ensures
            r matches Ok(names) ==> lists_streams(self.log(), names@),
            self.reliable() ==> r is Ok,
    ;

    /// The coordinate that `stream` was compacted to; a backend without
    /// compaction has none.
    fn compaction_boundary(&self, stream: &StreamId) -> (r: Result<Option<SeqNo>, StoreError>)
        requires
            self.wf(),
        ensures
            r matches Ok(found) ==> match found {
                Some(b) => self.boundary(stream@) == Some(b.0),
                None => self.boundary(stream@) is None,
            },
            self.reliable() ==> r is Ok,
    ;

    /// Point `label` at coordinate `at`, where there has to be an event.
    fn label_set(&mut self, stream: &StreamId, label: &Label, at: SeqNo) -> (r: Result<
        (),
        StoreError,
    >)
        requires
            old(self).wf(),
        ensures
            final(self).wf(),
            final(self).reliable() == old(self).reliable(),
            forall|s: Seq<char>| #[trigger] final(self).boundary(s) == old(self).boundary(s),
            match r {
                Ok(_) => {
                    &&& has_event(old(self).log().events(stream@), at.0)
                    &&& final(self).log() == old(self).log().relabelled(
                        stream@,
                        old(self).log().labels(stream@).insert(label@, at.0),
                    )
                },
                Err(_) => final(self).log() == old(self).log(),
            },
            old(self).reliable() && has_event(old(self).log().events(stream@), at.0) ==> r is Ok,
            old(self).reliable() && !has_event(old(self).log().events(stream@), at.0) ==> {
                r matches Err(e) && e@ == (ErrorView::SeqOutOfRange {
                    head: match old(self).log().head(stream@) {
                        Some(h) => Some(SeqNo(h)),
                        None => None,
                    },
                    requested: at,
                })
            },
    ;

    /// The coordinate that `label` points at.
    fn label_resolve(&self, stream: &StreamId, label: &Label) -> (r: Result<
        Option<SeqNo>,
        StoreError,
    >)
        requires
            self.wf(),
        ensures
            r matches Ok(found) ==> match found {
                Some(s) => self.log().labels(stream@).dom().contains(label@) && self.log().labels(
                    stream@,
                )[label@] == s.0,
                None => !self.log().labels(stream@).dom().contains(label@),
            },
            self.reliable() ==> r is Ok,
    ;

    /// The labels of `stream`, by name.
    fn labels(&self, stream: &StreamId) -> (r: Result<Vec<(Label, SeqNo)>, StoreError>)
        requires
            self.wf(),
        ensures
            r matches Ok(pairs) ==> in_name_order(pairs@) && label_map(pairs@)
                == self.log().labels(stream@),
            self.reliable() ==> r is Ok,
    ;

    /// Remove `label`; tells whether it was there.
    fn label_delete(&mut self, stream: &StreamId, label: &Label) -> (r: Result<bool, StoreError>)
        requires
            old(self).wf(),
        ensures
            final(self).wf(),
            final(self).reliable() == old(self).reliable(),
            forall|s: Seq<char>| #[trigger] final(self).boundary(s) == old(self).boundary(s),
            match r {
                Ok(existed) => {
                    &&& existed == old(self).log().labels(stream@).dom().contains(label@)
                    &&& existed ==> final(self).log() == old(self).log().relabelled(
                        stream@,
                        old(self).log().labels(stream@).remove(label@),
                    )
                    &&& !existed ==> final(self).log() == old(self).log()
                },
                Err(_) => final(self).log() == old(self).log(),
            },
            old(self).reliable() ==> r is Ok,
    ;
}

/// The cached states of one stream, by coordinate.
pub type Entries = Map<u64, Seq<char>>;

/// `found` is the entry closest to `at` among those that do not exceed it.
pub open spec fn is_nearest(entries: Entries, at: u64, found: Option<(u64, Seq<char>)>) -> bool {
    match found {
        Some((seq, state)) => {
            &&& entries.dom().contains(seq)
            &&& entries[seq] == state
            &&& seq <= at
            &&& forall|other: u64| #[trigger]
                entries.dom().contains(other) && other <= at ==> other <= seq
        },
        None => forall|other: u64| #[trigger] entries.dom().contains(other) ==> other > at,
    }
}

/// The entry closest to `at` among those that do not exceed it.
pub open spec fn nearest_of(entries: Entries, at: u64) -> Option<(u64, Seq<char>)> {
    choose|found: Option<(u64, Seq<char>)>| is_nearest(entries, at, found)
}

/// There is only one nearest entry.
pub proof fn nearest_is_unique(entries: Entries, at: u64, found: Option<(u64, Seq<char>)>)
    requires
        is_nearest(entries, at, found),
    ensures
        nearest_of(entries, at) == found,
{
    let chosen = nearest_of(entries, at);
    assert(is_nearest(entries, at, chosen));
    match chosen {
        Some((seq, _)) => assert(entries.dom().contains(seq)),
        None => {},
    }
    match found {
        Some((seq, _)) => assert(entries.dom().contains(seq)),
        None => {},
    }
}

/// `after` holds the `keep` entries of `before` with the greatest coordinates,
/// or all of them where there are fewer.
pub open spec fn keeps_latest(before: Entries, after: Entries, keep: nat) -> bool {
    &&& after.submap_of(before)
    &&& after.dom().len() == if before.dom().len() <= keep {
        before.dom().len()
    } else {
        keep
    }
    &&& forall|gone: u64, kept: u64|
        before.dom().contains(gone) && !after.dom().contains(gone) && after.dom().contains(kept)
            ==> gone < kept
}

/// Cache of states that were computed from the log.
///
/// Everything in it can be computed again, so entries may be dropped at any time.
///
/// What the ghost functions mean is up to the implementation; where it does not
/// say, it is left open.
pub trait CacheBackend: Sized {
    /// The cached states of `stream`.
    closed spec fn entries(&self, stream: Seq<char>) -> Entries {
        arbitrary()
    }

    /// Whether the cache is in order.
    closed spec fn wf(&self) -> bool {
        arbitrary()
    }

    /// Whether the storage never fails on its own account.
    closed spec fn reliable(&self) -> bool {
        arbitrary()
    }

    /// A cache in order holds finitely many states.
    proof fn wf_facts(&self)
        requires
            self.wf(),
        ensures
            forall|stream: Seq<char>| (#[trigger] self.entries(stream)).dom().finite(),
    ;

    /// Remember `state` as the state of `stream` at `at`.
    fn put(&mut self, stream: &StreamId, at: SeqNo, state: &serde_json::Value) -> (r: Result<
        (),
        StoreError,
    >)
        requires
            old(self).wf(),
        ensures
            final(self).wf(),
            final(self).reliable() == old(self).reliable(),
            forall|s: Seq<char>| s != stream@ ==> #[trigger] final(self).entries(s) == old(
                self,
            ).entries(s),
            match r {
                Ok(_) => final(self).entries(stream@) == old(self).entries(stream@).insert(
                    at.0,
                    json_text(*state),
                ),
                Err(_) => final(self).entries(stream@) == old(self).entries(stream@),
            },
            old(self).reliable() ==> r is Ok,
    ;

    /// The cached state closest to `at` without exceeding it.
    fn nearest(&self, stream: &StreamId, at: SeqNo) -> (r: Result<
        Option<(SeqNo, serde_json::Value)>,
        StoreError,
    >)
        requires
            self.wf(),
        ensures
            r matches Ok(found) ==> is_nearest(
                self.entries(stream@),
                at.0,
                match found {
                    Some((seq, state)) => Some((seq.0, json_text(state))),
                    None => None,
                },
            ),
            self.reliable() ==> r is Ok,
    ;

    /// Drop all but the `keep_latest` most recent states of `stream`.
    fn prune(&mut self, stream: &StreamId, keep_latest: usize) -> (r: Result<(), StoreError>)
        requires
            old(self).wf(),
        ensures
            final(self).wf(),
            final(self).reliable() == old(self).reliable(),
            forall|s: Seq<char>| s != stream@ ==> #[trigger] final(self).entries(s) == old(
                self,
            ).entries(s),
            match r {
                Ok(_) => keeps_latest(
                    old(self).entries(stream@),
                    final(self).entries(stream@),
                    keep_latest as nat,
                ),
                Err(_) => final(self).entries(stream@) == old(self).entries(stream@),
            },
            old(self).reliable() ==> r is Ok,
    ;
}

/// Where the checkpoints of sinks survive a restart.
///
/// What the ghost functions mean is up to the implementation; where it does not
/// say, it is left open.
pub trait CheckpointBackend: Sized {
    /// The checkpoint of `sink` on `stream`.
    closed spec fn saved(&self, sink: Seq<char>, stream: Seq<char>) -> Option<u64> {
        arbitrary()
    }

    /// Whether the backend is in order.
    closed spec fn wf(&self) -> bool {
        arbitrary()
    }

    /// Whether the storage never fails on its own account.
    closed spec fn reliable(&self) -> bool {
        arbitrary()
    }

    /// The checkpoint of `sink_id` on `stream`.
    fn get(&self, sink_id: &str, stream: &StreamId) -> (r: Result<Option<SeqNo>, StoreError>)
        requires
            self.wf(),
        ensures
            r matches Ok(found) ==> match found {
                Some(s) => self.saved(sink_id@, stream@) == Some(s.0),
                None => self.saved(sink_id@, stream@) is None,
            },
            self.reliable() ==> r is Ok,
    ;

    /// Set the checkpoint of `sink_id` on `stream`.
    fn put(&mut self, sink_id: &str, stream: &StreamId, at: SeqNo) -> (r: Result<(), StoreError>)
        requires
            old(self).wf(),
        ensures
            final(self).wf(),
            final(self).reliable() == old(self).reliable(),
            forall|k: Seq<char>, s: Seq<char>| #[trigger]
                final(self).saved(k, s) == if r is Ok && k == sink_id@ && s == stream@ {
                    Some(at.0)
                } else {
                    old(self).saved(k, s)
                },
            old(self).reliable() ==> r is Ok,
    ;
}

/// What a prefix holds of the items that pass a test is where the passing items
/// of the whole begin.
pub proof fn take_of_filter<T>(items: Seq<T>, n: int, test: spec_fn(T) -> bool)
    requires
        0 <= n <= items.len(),
    ensures
        items.take(n).filter(test).len() <= items.filter(test).len(),
        items.filter(test).take(items.take(n).filter(test).len() as int) == items.take(n).filter(
            test,
        ),
    decreases items.len() - n,
{
    reveal(Seq::filter);
    if n == items.len() {
        assert(items.take(n) =~= items);
        assert(items.filter(test).take(items.filter(test).len() as int) =~= items.filter(test));
    } else {
        take_of_filter(items, n + 1, test);
        let longer = items.take(n + 1);
        assert(longer.drop_last() =~= items.take(n));
        let short = items.take(n).filter(test);
        assert(longer.filter(test) == if test(longer.last()) {
            short.push(longer.last())
        } else {
            short
        });
        assert(items.filter(test).take(short.len() as int) =~= short) by {
            assert forall|i: int| 0 <= i < short.len() implies items.filter(test)[i] == short[i] by {
                assert(items.filter(test).take(longer.filter(test).len() as int)[i]
                    == longer.filter(test)[i]);
            }
        }
    }
}

/// A list of the streams names each stream that has events once, and no other.
pub proof fn every_stream_is_listed_once(log: LogView, names: Seq<StreamId>, stream: Seq<char>)
    requires
        lists_streams(log, names),
    ensures
        log.events(stream).len() > 0 <==> exists|i: int|
            0 <= i < names.len() && #[trigger] names[i]@ == stream,
        forall|i: int, j: int|
            0 <= i < names.len() && 0 <= j < names.len() && #[trigger] names[i]@ == stream
                && #[trigger] names[j]@ == stream ==> i == j,
{
    assert forall|i: int, j: int|
        0 <= i < names.len() && 0 <= j < names.len() && #[trigger] names[i]@ == stream
            && #[trigger] names[j]@ == stream implies i == j by {
        if i < j {
            assert(names[i]@ != names[j]@);
        } else if j < i {
            assert(names[j]@ != names[i]@);
        }
    }
    if exists|i: int| 0 <= i < names.len() && #[trigger] names[i]@ == stream {
        let i = choose|i: int| 0 <= i < names.len() && #[trigger] names[i]@ == stream;
        assert(log.known(names[i]@));
    }
    if log.events(stream).len() > 0 {
        assert(log.known(stream));
    }
}

/// A list of labels in the order of their names says of each label that it lists
/// what it points at, and of no other label anything.
pub proof fn every_label_is_listed_once(pairs: Seq<(Label, SeqNo)>, i: int, name: Seq<char>)
    requires
        in_name_order(pairs),
        0 <= i < pairs.len(),
    ensures
        label_map(pairs).dom().contains(pairs[i].0@),
        label_map(pairs)[pairs[i].0@] == pairs[i].1.0,
        label_map(pairs).dom().contains(name) ==> exists|j: int|
            0 <= j < pairs.len() && #[trigger] pairs[j].0@ == name,
        i + 1 < pairs.len() ==> text_before(pairs[i].0@, pairs[i + 1].0@),
{
    let found = pairs[i].0@;
    assert(pairs[i].0@ == found);
    let j = label_position(pairs, found);
    assert(pairs[j].0@ == found);
    text_order_strict(found, found);
    if i < j {
        assert(text_before(pairs[i].0@, pairs[j].0@));
    } else if j < i {
        assert(text_before(pairs[j].0@, pairs[i].0@));
    }
    if i + 1 < pairs.len() {
        assert(text_before(pairs[i].0@, pairs[i + 1].0@));
    }
}

/// Dropping all but the `keep` latest states keeps `keep` of them, or all where there
/// are no more; each that is kept is as it was, and later than each that went.
pub proof fn pruning_keeps_the_latest(
    before: Entries,
    after: Entries,
    keep: nat,
    at: u64,
    gone: u64,
)
    requires
        before.dom().finite(),
        keeps_latest(before, after, keep),
    ensures
        after.dom().len() == if keep < before.dom().len() {
            keep
        } else {
            before.dom().len()
        },
        after.dom().contains(at) ==> before.dom().contains(at) && after[at] == before[at],
        after.dom().contains(at) && before.dom().contains(gone) && !after.dom().contains(gone)
            ==> gone < at,
        before.dom().len() <= keep ==> after == before,
{
    if before.dom().len() <= keep {
        assert(after.dom().subset_of(before.dom()));
        vstd::set_lib::lemma_subset_equality(after.dom(), before.dom());
        assert(after =~= before);
    }
}

/// A conditional append expects the coordinate of the last event, or zero where there
/// is none.
pub proof fn the_expected_head_is_the_last_event(
    log: LogView,
    stream: Seq<char>,
    expected: SeqNo,
    error: ErrorView,
)
    ensures
        head_is(log, stream, expected) <==> (if log.events(stream).len() == 0 {
            expected.0 == 0
        } else {
            expected.0 == log.events(stream).last().seq
        }),
        head_conflict(log, stream, expected, error) <==> !head_is(log, stream, expected) && error
            == (ErrorView::HeadConflict {
            expected,
            actual: if log.events(stream).len() == 0 {
                None
            } else {
                Some(SeqNo(log.events(stream).last().seq))
            },
        }),
{
}

/// An append that succeeded is one more event of its stream, with the coordinate that was
/// reported; one that failed changes nothing.
pub proof fn an_append_adds_one_event_or_nothing(
    before: LogView,
    after: LogView,
    stream: Seq<char>,
    rec: NewEvent,
    r: Result<Committed, StoreError>,
    other: Seq<char>,
)
    requires
        append_effect(before, after, stream, rec, r),
    ensures
        r is Err ==> after == before,
        r matches Ok(c) ==> after.events(stream) == before.events(stream).push(
            rec@.committed(c.seq.0, c.at.0),
        ),
        r matches Ok(c) ==> c.seq.0 == if before.events(stream).len() == 0 {
            1
        } else {
            before.events(stream).last().seq + 1
        },
        other != stream ==> after.events(other) == before.events(other),
        after.labels(other) == before.labels(other),
{
}

} // verus!
